//! IPv4 addresses as text: four numbers in decimal, with dots between them.

use crate::text::{
    a_number_is_read_back, chars_of, decimal, decimal_string, digit_char, number_of, only_piece,
    pieces, rows_view, split_at_char, trim, trimmed,
};
use vstd::prelude::*;

verus! {

/// The text of an address.
pub open spec fn dotted(a: nat, b: nat, c: nat, d: nat) -> Seq<char> {
    decimal(a) + seq!['.'] + decimal(b) + seq!['.'] + decimal(c) + seq!['.'] + decimal(d)
}

/// The text of the address `ip`.
pub open spec fn address_text(ip: Seq<u8>) -> Seq<char> {
    dotted(ip[0] as nat, ip[1] as nat, ip[2] as nat, ip[3] as nat)
}

/// The number that the digits `s` stand for.
spec fn digits_value(s: Seq<char>) -> nat
    decreases s.len(),
{
    if s.len() == 0 {
        0
    } else {
        (digits_value(s.drop_last()) * 10 + (s.last() as nat - '0' as nat)) as nat
    }
}

/// A number in decimal is made of digits, and is the number that they stand for.
proof fn decimal_reads_back(n: nat)
    ensures
        digits_value(decimal(n)) == n,
        decimal(n).len() > 0,
        n < 1000 ==> decimal(n).len() <= 3,
        n < 100 ==> decimal(n).len() <= 2,
        n < 10 ==> decimal(n).len() == 1,
        forall|i: int| 0 <= i < decimal(n).len() ==> '0' <= #[trigger] decimal(n)[i] <= '9',
    decreases n,
{
    if n < 10 {
        assert(decimal(n).drop_last() == Seq::<char>::empty());
        assert(decimal(n).last() == digit_char(n));
        assert(digits_value(decimal(n).drop_last()) == 0);
    } else {
        decimal_reads_back(n / 10);
        assert(decimal(n).drop_last() == decimal(n / 10));
    }
}

/// The number from 0 to 255 whose decimal text is `piece`.
fn octet(piece: &[char]) -> (v: Option<u8>)
    ensures
        v matches Some(n) ==> piece@ == decimal(n as nat),
        v is None ==> forall|n: nat| n <= 255 ==> piece@ != #[trigger] decimal(n),
{
    proof {
        assert forall|n: nat| n <= 255 implies {
            &&& 0 < (#[trigger] decimal(n)).len() <= 3
            &&& digits_value(decimal(n)) == n
            &&& forall|i: int| 0 <= i < decimal(n).len() ==> '0' <= #[trigger] decimal(n)[i] <= '9'
        } by {
            decimal_reads_back(n);
        }
    }
    if piece.len() == 0 || piece.len() > 3 {
        return None;
    }
    let mut value: u32 = 0;
    let mut i: usize = 0;
    proof {
        assert(piece@.take(0) == Seq::<char>::empty());
    }
    while i < piece.len()
        invariant
            i <= piece@.len() <= 3,
            value == digits_value(piece@.take(i as int)),
            i == 0 ==> value == 0,
            i == 1 ==> value <= 9,
            i == 2 ==> value <= 99,
            i == 3 ==> value <= 999,
            forall|n: nat|
                n <= 255 ==> forall|i: int|
                    0 <= i < (#[trigger] decimal(n)).len() ==> '0' <= #[trigger] decimal(n)[i]
                        <= '9',
        decreases piece@.len() - i,
    {
        let c: char = piece[i];
        if c < '0' || c > '9' {
            proof {
                assert forall|n: nat| n <= 255 implies piece@ != #[trigger] decimal(n) by {
                    if piece@ == decimal(n) {
                        assert('0' <= decimal(n)[i as int] <= '9');
                    }
                }
            }
            return None;
        }
        proof {
            assert(piece@.take(i + 1).drop_last() == piece@.take(i as int));
            assert(piece@.take(i + 1).last() == c);
        }
        value = value * 10 + (c as u32 - '0' as u32);
        i += 1;
    }
    proof {
        assert(piece@.take(i as int) == piece@);
    }
    if value > 255 {
        return None;
    }
    let canonical = decimal_string(value as u64);
    let chars = chars_of(canonical.as_str());
    if same_chars(piece, chars.as_slice()) {
        Some(value as u8)
    } else {
        None
    }
}

/// Whether two texts are the same.
fn same_chars(a: &[char], b: &[char]) -> (same: bool)
    ensures
        same == (a@ == b@),
{
    if a.len() != b.len() {
        return false;
    }
    let mut i: usize = 0;
    while i < a.len()
        invariant
            i <= a@.len(),
            a@.len() == b@.len(),
            forall|j: int| 0 <= j < i ==> a@[j] == b@[j],
        decreases a@.len() - i,
    {
        if a[i] != b[i] {
            return false;
        }
        i += 1;
    }
    proof {
        assert(a@ == b@);
    }
    true
}

/// `rows` with dots between them.
spec fn with_dots(rows: Seq<Seq<char>>) -> Seq<char>
    decreases rows.len(),
{
    if rows.len() == 0 {
        Seq::empty()
    } else if rows.len() == 1 {
        rows[0]
    } else {
        with_dots(rows.drop_last()) + seq!['.'] + rows.last()
    }
}

/// The pieces of a text, with dots between them, are the text.
proof fn pieces_join_up(s: Seq<char>)
    ensures
        pieces(s, '.').len() > 0,
        with_dots(pieces(s, '.')) == s,
    decreases s.len(),
{
    let all = pieces(s, '.');
    if s.len() == 0 {
        assert(with_dots(all) == s);
    } else {
        let before = pieces(s.drop_last(), '.');
        pieces_join_up(s.drop_last());
        assert(s == s.drop_last().push(s.last()));
        if s.last() == '.' {
            assert(all.drop_last() == before);
            assert(with_dots(all) == with_dots(before) + seq!['.'] + Seq::<char>::empty());
            assert(with_dots(all) == s);
        } else {
            assert(all.drop_last() == before.drop_last());
            assert(all.last() == before.last().push(s.last()));
            if all.len() == 1 {
                assert(with_dots(all) == s);
            } else {
                assert(with_dots(all) == with_dots(before.drop_last()) + seq!['.']
                    + before.last().push(s.last()));
                assert(with_dots(all) == s);
            }
        }
    }
}

/// What stands behind the last dot of a text is its last piece.
proof fn last_piece(s: Seq<char>, t: Seq<char>)
    requires
        !t.contains('.'),
    ensures
        pieces(s + seq!['.'] + t, '.') == pieces(s, '.').push(t),
    decreases t.len(),
{
    let whole = s + seq!['.'] + t;
    if t.len() == 0 {
        assert(whole.drop_last() == s);
        assert(whole.last() == '.');
        assert(t == Seq::<char>::empty());
    } else {
        let init = t.drop_last();
        assert(t[t.len() - 1] == t.last());
        assert forall|k: int| 0 <= k < init.len() implies init[k] != '.' by {
            assert(t[k] != '.');
        }
        last_piece(s, init);
        assert(whole.drop_last() == s + seq!['.'] + init);
        assert(whole.last() == t.last());
        let before = pieces(whole.drop_last(), '.');
        assert(before.drop_last() == pieces(s, '.'));
        assert(before.last().push(t.last()) == t);
    }
}

/// The pieces of the text of an address are its numbers.
proof fn pieces_of_an_address(a: nat, b: nat, c: nat, d: nat)
    ensures
        pieces(dotted(a, b, c, d), '.') == seq![decimal(a), decimal(b), decimal(c), decimal(d)],
{
    decimal_has_no_dot(a);
    decimal_has_no_dot(b);
    decimal_has_no_dot(c);
    decimal_has_no_dot(d);
    let ab = decimal(a) + seq!['.'] + decimal(b);
    let abc = ab + seq!['.'] + decimal(c);
    only_piece(decimal(a), '.');
    last_piece(decimal(a), decimal(b));
    last_piece(ab, decimal(c));
    last_piece(abc, decimal(d));
    assert(pieces(dotted(a, b, c, d), '.') == seq![
        decimal(a),
        decimal(b),
        decimal(c),
        decimal(d),
    ]);
}

proof fn decimal_has_no_dot(n: nat)
    ensures
        !decimal(n).contains('.'),
{
    decimal_reads_back(n);
}

/// The address whose text is `text`, white space around it left aside.
pub fn parse_address(text: &str) -> (ip: Option<[u8; 4]>)
    ensures
        ip matches Some(ip) ==> trim(text@) == address_text(ip@),
        ip is None ==> forall|ip: Seq<u8>| trim(text@) != #[trigger] address_text(ip),
{
    let chars = chars_of(text);
    let core = trimmed(chars.as_slice());
    let rows = split_at_char(core, '.');
    let ghost all = pieces(core@, '.');
    proof {
        assert forall|ip: Seq<u8>| core@ == #[trigger] address_text(ip) implies {
            &&& all.len() == 4
            &&& forall|k: int| 0 <= k < 4 ==> #[trigger] all[k] == decimal(ip[k] as nat)
        } by {
            pieces_of_an_address(ip[0] as nat, ip[1] as nat, ip[2] as nat, ip[3] as nat);
        }
        assert forall|k: int| 0 <= k < rows@.len() implies #[trigger] all[k] == rows@[k]@ by {
            assert(rows_view(rows@)[k] == rows@[k]@);
        }
    }
    if rows.len() != 4 {
        return None;
    }
    let a = octet(rows[0].as_slice());
    let b = octet(rows[1].as_slice());
    let c = octet(rows[2].as_slice());
    let d = octet(rows[3].as_slice());
    match (a, b, c, d) {
        (Some(a), Some(b), Some(c), Some(d)) => {
            let ip: [u8; 4] = [a, b, c, d];
            proof {
                pieces_join_up(core@);
                reveal_with_fuel(with_dots, 4);
                assert(all == seq![all[0], all[1], all[2], all[3]]);
                assert(all.drop_last() == seq![all[0], all[1], all[2]]);
                assert(all.drop_last().drop_last() == seq![all[0], all[1]]);
                assert(all.drop_last().drop_last().drop_last() == seq![all[0]]);
                assert(core@ == address_text(ip@));
            }
            Some(ip)
        },
        _ => {
            proof {
                assert forall|ip: Seq<u8>| core@ != #[trigger] address_text(ip) by {
                    if core@ == address_text(ip) {
                        assert(all[0] == decimal(ip[0] as nat));
                        assert(all[1] == decimal(ip[1] as nat));
                        assert(all[2] == decimal(ip[2] as nat));
                        assert(all[3] == decimal(ip[3] as nat));
                    }
                }
            }
            None
        },
    }
}

/// An address is what its text is read as: no two addresses have one text.
pub proof fn addresses_have_their_own_texts(a: Seq<u8>, b: Seq<u8>)
    requires
        a.len() == 4,
        b.len() == 4,
        address_text(a) == address_text(b),
    ensures
        a == b,
{
    pieces_of_an_address(a[0] as nat, a[1] as nat, a[2] as nat, a[3] as nat);
    pieces_of_an_address(b[0] as nat, b[1] as nat, b[2] as nat, b[3] as nat);
    let p = pieces(address_text(a), '.');
    assert forall|k: int| 0 <= k < 4 implies a[k] == b[k] by {
        decimal_reads_back(a[k] as nat);
        decimal_reads_back(b[k] as nat);
        assert(p[k] == decimal(a[k] as nat));
        assert(p[k] == decimal(b[k] as nat));
    }
    assert(a == b);
}

/// The text of an address is its four numbers in decimal, in their order, with dots between
/// them and nothing else.
pub proof fn an_address_is_its_four_numbers(ip: Seq<u8>)
    requires
        ip.len() == 4,
    ensures
        ({
            let rows = pieces(address_text(ip), '.');
            &&& rows.len() == 4
            &&& forall|k: int| 0 <= k < 4 ==> number_of(#[trigger] rows[k]) == ip[k]
            &&& forall|k: int| 0 <= k < 4 ==> (#[trigger] rows[k]).len() > 0
            &&& forall|k: int|
                0 <= k < 4 && ip[k] > 0 ==> (#[trigger] rows[k])[0] != '0'
        }),
{
    pieces_of_an_address(ip[0] as nat, ip[1] as nat, ip[2] as nat, ip[3] as nat);
    let rows = pieces(address_text(ip), '.');
    assert forall|k: int| 0 <= k < 4 implies number_of(#[trigger] rows[k]) == ip[k] && rows[k].len()
        > 0 && (ip[k] > 0 ==> rows[k][0] != '0') by {
        a_number_is_read_back(ip[k] as nat);
        assert(rows[k] == decimal(ip[k] as nat));
    }
}

} // verus!
