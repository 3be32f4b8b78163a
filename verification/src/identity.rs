//! Identifiers of transfers and of this program on the network: random UUIDs.

use crate::crypto::{drawn, random_bytes, CryptoError};
use crate::digest::{hex, hex_is_injective, hex_len};
use vstd::prelude::*;

verus! {

/// Sixteen random bytes as a UUID: the bits that say so are set, the others kept.
pub open spec fn uuid_bytes(random: Seq<u8>) -> Seq<u8> {
    random.update(6, (0x40 + random[6] % 16) as u8).update(8, (0x80 + random[8] % 64) as u8)
}

/// The UUID of sixteen random bytes, in hexadecimal with hyphens.
pub open spec fn uuid_text(random: Seq<u8>) -> Seq<char> {
    let digits = hex(uuid_bytes(random));
    digits.subrange(0, 8) + seq!['-'] + digits.subrange(8, 12) + seq!['-'] + digits.subrange(12, 16)
        + seq!['-'] + digits.subrange(16, 20) + seq!['-'] + digits.subrange(20, 32)
}

/// `uuid::Builder::from_random_bytes` sets in `random` the bits for a random
/// UUID, and its `Display` writes it in lower case with hyphens.
#[verifier::external_body]
fn uuid_of(random: [u8; 16]) -> (text: String)
    ensures
        text@ == uuid_text(random@),
{
    uuid::Builder::from_random_bytes(random).into_uuid().to_string()
}

/// The identifier made of sixteen random bytes.
pub fn id_of(random: [u8; 16]) -> (id: String)
    ensures
        id@ == uuid_text(random@),
{
    uuid_of(random)
}

/// The identifier made of the bytes that were drawn, if any were.
pub fn id_of_drawn(random: Result<[u8; 16], CryptoError>) -> (id: Result<String, CryptoError>)
    ensures
        match random {
            Ok(random) => id matches Ok(text) && text@ == uuid_text(random@),
            Err(e) => id matches Err(x) && x == e,
        },
{
    match random {
        Ok(random) => Ok(id_of(random)),
        Err(e) => Err(e),
    }
}

/// A fresh identifier.
pub fn new_id() -> (id: Result<String, CryptoError>)
    ensures
        id matches Ok(text) ==> exists|random: Seq<u8>|
            random.len() == 16 && text@ == #[trigger] uuid_text(random),
        id matches Err(e) ==> e == CryptoError::NoRandomness,
{
    let random = drawn(random_bytes::<16>());
    proof {
        if let Ok(bytes) = random {
            assert(bytes@.len() == 16);
        }
    }
    id_of_drawn(random)
}

/// An identifier has thirty-six characters, and tells which UUID it is.
pub proof fn identifiers_tell_uuids_apart(a: Seq<u8>, b: Seq<u8>)
    requires
        a.len() == 16,
        b.len() == 16,
    ensures
        uuid_text(a).len() == 36,
        uuid_text(a) == uuid_text(b) ==> uuid_bytes(a) == uuid_bytes(b),
{
    let x = hex(uuid_bytes(a));
    let y = hex(uuid_bytes(b));
    hex_len(uuid_bytes(a));
    hex_len(uuid_bytes(b));
    if uuid_text(a) == uuid_text(b) {
        let s = uuid_text(a);
        let t = uuid_text(b);
        assert forall|i: int| 0 <= i < 32 implies x[i] == y[i] by {
            let at = if i < 8 {
                i
            } else if i < 12 {
                i + 1
            } else if i < 16 {
                i + 2
            } else if i < 20 {
                i + 3
            } else {
                i + 4
            };
            assert(s[at] == x[i]);
            assert(t[at] == y[i]);
        }
        assert(x == y);
        hex_is_injective(uuid_bytes(a), uuid_bytes(b));
    }
}

/// In a UUID the version is four and the variant is the common one; every other bit is the
/// random bit that stood there.
pub proof fn a_uuid_keeps_what_is_random(random: Seq<u8>)
    requires
        random.len() == 16,
    ensures
        ({
            let bytes = uuid_bytes(random);
            &&& bytes.len() == 16
            &&& bytes[6] / 16 == 4 && bytes[6] % 16 == random[6] % 16
            &&& bytes[8] / 64 == 2 && bytes[8] % 64 == random[8] % 64
            &&& forall|i: int|
                0 <= i < 16 && i != 6 && i != 8 ==> #[trigger] bytes[i] == random[i]
        }),
{
}

/// An identifier is made of thirty-two hexadecimal digits, two for each byte of the UUID in
/// turn, with hyphens behind the first eight and each four of the next twelve.
pub proof fn an_identifier_is_its_digits(random: Seq<u8>)
    requires
        random.len() == 16,
    ensures
        ({
            let text = uuid_text(random);
            &&& text.len() == 36
            &&& text[8] == '-' && text[13] == '-' && text[18] == '-' && text[23] == '-'
            &&& text.subrange(0, 8) + text.subrange(9, 13) + text.subrange(14, 18)
                + text.subrange(19, 23) + text.subrange(24, 36) == hex(uuid_bytes(random))
        }),
{
    hex_len(uuid_bytes(random));
    let text = uuid_text(random);
    let digits = hex(uuid_bytes(random));
    assert(text.subrange(0, 8) == digits.subrange(0, 8));
    assert(text.subrange(9, 13) == digits.subrange(8, 12));
    assert(text.subrange(14, 18) == digits.subrange(12, 16));
    assert(text.subrange(19, 23) == digits.subrange(16, 20));
    assert(text.subrange(24, 36) == digits.subrange(20, 32));
    assert(digits.subrange(0, 8) + digits.subrange(8, 12) + digits.subrange(12, 16)
        + digits.subrange(16, 20) + digits.subrange(20, 32) == digits);
}

} // verus!
