//! Whole numbers as bytes, most significant byte first.

use vstd::prelude::*;

verus! {

/// The last `len` bytes of `x`, most significant byte first.
pub open spec fn be_bytes(x: nat, len: nat) -> Seq<u8>
    decreases len,
{
    if len == 0 {
        Seq::empty()
    } else {
        be_bytes(x / 256, (len - 1) as nat).push((x % 256) as u8)
    }
}

/// The number that `bytes` write, most significant byte first.
pub open spec fn be_value(bytes: Seq<u8>) -> nat
    decreases bytes.len(),
{
    if bytes.len() == 0 {
        0
    } else {
        be_value(bytes.drop_last()) * 256 + bytes.last() as nat
    }
}

/// Two hundred fifty-six to the power `len`.
pub open spec fn byte_range(len: nat) -> nat
    decreases len,
{
    if len == 0 {
        1
    } else {
        256 * byte_range((len - 1) as nat)
    }
}

/// A number that fits is read back from its bytes, which are as many as asked for.
pub proof fn be_bytes_read_back(x: nat, len: nat)
    requires
        x < byte_range(len),
    ensures
        be_bytes(x, len).len() == len,
        be_value(be_bytes(x, len)) == x,
    decreases len,
{
    if len > 0 {
        be_bytes_read_back(x / 256, (len - 1) as nat);
        assert(be_bytes(x, len).drop_last() == be_bytes(x / 256, (len - 1) as nat));
    }
}

/// The four bytes of `x`.
pub fn u32_be_bytes(x: u32) -> (bytes: [u8; 4])
    ensures
        bytes@ == be_bytes(x as nat, 4),
{
    let bytes: [u8; 4] = [
        (x / 0x100_0000) as u8,
        (x / 0x1_0000 % 256) as u8,
        (x / 0x100 % 256) as u8,
        (x % 256) as u8,
    ];
    proof {
        reveal_with_fuel(be_bytes, 5);
        assert(bytes@ == be_bytes(x as nat, 4));
    }
    bytes
}

/// The eight bytes of `x`.
pub fn u64_be_bytes(x: u64) -> (bytes: [u8; 8])
    ensures
        bytes@ == be_bytes(x as nat, 8),
{
    let x1: u64 = x / 256;
    let x2: u64 = x1 / 256;
    let x3: u64 = x2 / 256;
    let x4: u64 = x3 / 256;
    let high = u32_be_bytes(x4 as u32);
    let bytes: [u8; 8] = [
        high[0],
        high[1],
        high[2],
        high[3],
        (x3 % 256) as u8,
        (x2 % 256) as u8,
        (x1 % 256) as u8,
        (x % 256) as u8,
    ];
    proof {
        assert(be_bytes(x3 as nat, 5) == high@.push((x3 % 256) as u8));
        assert(be_bytes(x2 as nat, 6) == be_bytes(x3 as nat, 5).push((x2 % 256) as u8));
        assert(be_bytes(x1 as nat, 7) == be_bytes(x2 as nat, 6).push((x1 % 256) as u8));
        assert(be_bytes(x as nat, 8) == be_bytes(x1 as nat, 7).push((x % 256) as u8));
        assert(bytes@ == be_bytes(x as nat, 8));
    }
    bytes
}

/// The number that four bytes write.
pub fn u32_of_be_bytes(bytes: &[u8]) -> (x: u32)
    requires
        bytes@.len() == 4,
    ensures
        x == be_value(bytes@),
{
    let x: u32 = bytes[0] as u32 * 0x100_0000 + bytes[1] as u32 * 0x1_0000 + bytes[2] as u32 * 0x100
        + bytes[3] as u32;
    proof {
        reveal_with_fuel(be_value, 5);
        let s = bytes@;
        assert(s.drop_last().last() == s[2]);
        assert(s.drop_last().drop_last().last() == s[1]);
        assert(s.drop_last().drop_last().drop_last().last() == s[0]);
    }
    x
}

/// The bytes in front weigh more: each byte behind them multiplies them by 256.
pub proof fn bytes_in_front_weigh_more(a: Seq<u8>, b: Seq<u8>)
    ensures
        be_value(a + b) == be_value(a) * byte_range(b.len()) + be_value(b),
    decreases b.len(),
{
    if b.len() == 0 {
        assert(a + b == a);
        assert(be_value(a) * 1 == be_value(a));
    } else {
        let init = b.drop_last();
        bytes_in_front_weigh_more(a, init);
        assert((a + b).drop_last() == a + init);
        assert((a + b).last() == b.last());
        let x = be_value(a);
        let y = byte_range(init.len());
        let z = be_value(init);
        assert((x * y + z) * 256 == x * (256 * y) + z * 256) by (nonlinear_arith);
        assert(byte_range(b.len()) == 256 * y);
    }
}

/// Four bytes write the number that their weights give.
pub proof fn four_bytes_write_a_number(a: u8, b: u8, c: u8, d: u8)
    ensures
        be_value(seq![a, b, c, d]) == a as nat * 16_777_216 + b as nat * 65_536 + c as nat * 256
            + d as nat,
{
    reveal_with_fuel(be_value, 5);
    let s = seq![a, b, c, d];
    assert(s.drop_last() == seq![a, b, c]);
    assert(seq![a, b, c].drop_last() == seq![a, b]);
    assert(seq![a, b].drop_last() == seq![a]);
    assert(seq![a].drop_last() == Seq::<u8>::empty());
}

} // verus!
