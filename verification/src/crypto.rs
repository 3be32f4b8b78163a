//! The outside cryptography that a connection rests on, and the session key
//! that is derived with it.
//!
//! Each connection has a fresh pair of X25519 keys on both sides. The secret
//! that the two sides come to share goes through SHA-256 and is then the
//! AES-256-GCM key of the connection. Keys vanish with the connection. There is
//! no lasting identity, so this guards against listening in, not against a
//! middleman.

use crate::digest::{sha256, FileDigest};
use aes_gcm::aead::{Aead, KeyInit};
use rand::RngCore;
use vstd::prelude::*;
use vstd::string::StringSliceAdditionalSpecFns;
use vstd::utf8::encode_utf8;

verus! {

/// The length of an AES-256-GCM tag, which ends every sealed message.
pub const TAG_LEN: usize = 16;

/// The longest message that AES-256-GCM seals.
pub const SEAL_LIMIT: u64 = 0x10_0000_0000;

/// The error of the `rand` crate.
#[verifier::external_type_specification]
#[verifier::external_body]
pub struct ExRandError(rand::Error);

/// The error of the `aes-gcm` crate.
#[verifier::external_type_specification]
#[verifier::external_body]
pub struct ExAeadError(aes_gcm::Error);

/// What X25519 gives for the scalar `k` and the point `u`.
pub uninterp spec fn x25519_product(k: Seq<u8>, u: Seq<u8>) -> Seq<u8>;

/// What AES-256-GCM makes of `plaintext`: the ciphertext with its tag.
pub uninterp spec fn gcm_sealed(key: Seq<u8>, nonce: Seq<u8>, plaintext: Seq<u8>) -> Seq<u8>;

/// What AES-256-GCM finds in `ciphertext`, if its tag is right.
pub uninterp spec fn gcm_opened(key: Seq<u8>, nonce: Seq<u8>, ciphertext: Seq<u8>) -> Option<Seq<u8>>;

/// The point that public keys are multiples of.
pub open spec fn base_point() -> Seq<u8> {
    Seq::new(32, |i: int| if i == 0 { 9u8 } else { 0u8 })
}

/// `x25519_dalek::x25519` multiplies the point `u` by the scalar `k`. Of a
/// multiple of the base point, that the two ways to the shared secret of a key
/// exchange lead to one value: another scalar times this public key is this
/// scalar times the other public key.
#[verifier::external_body]
fn x25519(k: [u8; 32], u: [u8; 32]) -> (product: [u8; 32])
    ensures
        product@ == x25519_product(k@, u@),
        u@ == base_point() ==> forall|other: Seq<u8>|
            other.len() == 32 ==> #[trigger] x25519_product(other, product@) == x25519_product(
                k@,
                x25519_product(other, base_point()),
            ),
{
    x25519_dalek::x25519(k, u)
}

/// `rand::rngs::OsRng::try_fill_bytes`: bytes from the operating system, of
/// which nothing is known, or an error where it has none to give.
#[verifier::external_body]
pub(crate) fn random_bytes<const N: usize>() -> Result<[u8; N], rand::Error> {
    let mut bytes = [0u8; N];
    rand::rngs::OsRng.try_fill_bytes(&mut bytes)?;
    Ok(bytes)
}

/// `aes_gcm::Aes256Gcm::encrypt` seals a message of up to 2^36 bytes without
/// associated data, and refuses a longer one. The ciphertext is as long as the
/// message, the tag is behind it, and opening it under the same key and nonce
/// gives the message back.
#[verifier::external_body]
pub(crate) fn encrypt(key: &[u8; 32], nonce: &[u8; 12], plaintext: &[u8]) -> (sealed: Result<
    Vec<u8>,
    aes_gcm::Error,
>)
    requires
        plaintext@.len() + TAG_LEN <= isize::MAX,
    ensures
        sealed is Ok <==> plaintext@.len() <= SEAL_LIMIT,
        sealed matches Ok(c) ==> {
            &&& c@ == gcm_sealed(key@, nonce@, plaintext@)
            &&& c@.len() == plaintext@.len() + TAG_LEN
            &&& gcm_opened(key@, nonce@, c@) == Some(plaintext@)
        },
{
    let cipher = aes_gcm::Aes256Gcm::new(aes_gcm::Key::<aes_gcm::Aes256Gcm>::from_slice(key));
    cipher.encrypt(aes_gcm::Nonce::from_slice(nonce), plaintext)
}

/// `aes_gcm::Aes256Gcm::decrypt` opens a message without associated data, and
/// refuses it where its tag is wrong or missing. The message is as long as the
/// ciphertext without its tag.
#[verifier::external_body]
pub(crate) fn decrypt(key: &[u8; 32], nonce: &[u8; 12], ciphertext: &[u8]) -> (opened: Result<
    Vec<u8>,
    aes_gcm::Error,
>)
    ensures
        opened is Ok <==> gcm_opened(key@, nonce@, ciphertext@) is Some,
        opened matches Ok(p) ==> {
            &&& gcm_opened(key@, nonce@, ciphertext@) == Some(p@)
            &&& p@.len() + TAG_LEN == ciphertext@.len()
        },
{
    let cipher = aes_gcm::Aes256Gcm::new(aes_gcm::Key::<aes_gcm::Aes256Gcm>::from_slice(key));
    cipher.decrypt(aes_gcm::Nonce::from_slice(nonce), ciphertext)
}

/// Why a connection could not be set up.
#[derive(Clone, Copy, Debug, PartialEq, Eq, Structural)]
pub enum CryptoError {
    /// The operating system has no random bytes to give.
    NoRandomness,
}

/// `public` is the public key of `secret`, and whoever holds another secret
/// comes to the same shared value from `public` as the holder of `secret` from
/// the other public key.
pub open spec fn is_keypair(secret: Seq<u8>, public: Seq<u8>) -> bool {
    &&& secret.len() == 32
    &&& public == x25519_product(secret, base_point())
    &&& forall|other: Seq<u8>|
        other.len() == 32 ==> #[trigger] x25519_product(other, public) == x25519_product(
            secret,
            x25519_product(other, base_point()),
        )
}

/// The public key of `secret`.
pub fn public_key(secret: [u8; 32]) -> (public: [u8; 32])
    ensures
        is_keypair(secret@, public@),
{
    let base: [u8; 32] = [
        9, 0, 0, 0, 0, 0, 0, 0, 0, 0, 0, 0, 0, 0, 0, 0, 0, 0, 0, 0, 0, 0, 0, 0, 0, 0, 0, 0, 0, 0, 0,
        0,
    ];
    proof {
        assert(base@ == base_point());
    }
    x25519(secret, base)
}

/// What came of drawing random bytes: the bytes as they are, or that there are none.
pub fn drawn<const N: usize>(bytes: Result<[u8; N], rand::Error>) -> (r: Result<
    [u8; N],
    CryptoError,
>)
    ensures
        bytes matches Ok(b) ==> r == Ok::<[u8; N], CryptoError>(b),
        bytes is Err ==> r == Err::<[u8; N], CryptoError>(CryptoError::NoRandomness),
{
    match bytes {
        Ok(bytes) => Ok(bytes),
        Err(_) => Err(CryptoError::NoRandomness),
    }
}

/// The pair of keys with the secret key that was drawn, if one was.
pub fn keypair_of(secret: Result<[u8; 32], CryptoError>) -> (pair: Result<
    ([u8; 32], [u8; 32]),
    CryptoError,
>)
    ensures
        match secret {
            Ok(secret) => {
                &&& pair matches Ok((s, public))
                &&& s == secret
                &&& is_keypair(secret@, public@)
            },
            Err(e) => pair == Err::<([u8; 32], [u8; 32]), CryptoError>(e),
        },
{
    match secret {
        Ok(secret) => Ok((secret, public_key(secret))),
        Err(e) => Err(e),
    }
}

/// A fresh secret key and its public key.
pub fn gen_keypair() -> (pair: Result<([u8; 32], [u8; 32]), CryptoError>)
    ensures
        pair matches Ok((secret, public)) ==> is_keypair(secret@, public@),
        pair matches Err(e) ==> e == CryptoError::NoRandomness,
{
    keypair_of(drawn(random_bytes::<32>()))
}

/// A fresh salt for one direction of a connection.
pub fn gen_salt() -> (salt: Result<[u8; 4], CryptoError>)
    ensures
        salt matches Err(e) ==> e == CryptoError::NoRandomness,
{
    drawn(random_bytes::<4>())
}

/// The text that every session key is derived under.
pub open spec fn session_label() -> Seq<u8> {
    encode_utf8("verishare-v1-session-key"@)
}

/// The session key for a shared secret.
pub open spec fn key_of_secret(shared_secret: Seq<u8>) -> Seq<u8> {
    sha256(session_label() + shared_secret)
}

/// The session key for a shared secret: the secret is hashed under a label
/// rather than used as it is, so that its bits are evenly spread.
pub fn derive_key(shared_secret: &[u8; 32]) -> (key: [u8; 32])
    ensures
        key@ == key_of_secret(shared_secret@),
{
    let label: &[u8] = "verishare-v1-session-key".as_bytes();
    let digest = FileDigest::new();
    proof {
        reveal_strlit("verishare-v1-session-key");
        vstd::utf8::is_ascii_chars_encode_utf8("verishare-v1-session-key"@);
    }
    let digest = digest.with(label);
    let digest = digest.with(shared_secret.as_slice());
    proof {
        assert(Seq::<u8>::empty() + label@ + shared_secret@ == session_label() + shared_secret@);
    }
    digest.finish()
}

/// The session key that the holder of `secret` comes to with `their_public`.
pub open spec fn session_key(secret: Seq<u8>, their_public: Seq<u8>) -> Seq<u8> {
    key_of_secret(x25519_product(secret, their_public))
}

/// The session key that the holder of `secret` comes to with `their_public`.
pub fn agree(secret: [u8; 32], their_public: [u8; 32]) -> (key: [u8; 32])
    ensures
        key@ == session_key(secret@, their_public@),
{
    let shared = x25519(secret, their_public);
    derive_key(&shared)
}

/// Both sides of a key exchange come to one session key.
pub proof fn both_sides_agree(
    secret_a: Seq<u8>,
    public_a: Seq<u8>,
    secret_b: Seq<u8>,
    public_b: Seq<u8>,
)
    requires
        is_keypair(secret_a, public_a),
        is_keypair(secret_b, public_b),
    ensures
        session_key(secret_a, public_b) == session_key(secret_b, public_a),
{
    assert(x25519_product(secret_b, public_a) == x25519_product(
        secret_a,
        x25519_product(secret_b, base_point()),
    ));
}

/// The session key is the SHA-256 of the label, in its twenty-four bytes, and of the whole
/// shared secret behind it.
pub proof fn a_session_key_is_hashed_under_its_label(secret: Seq<u8>, their_public: Seq<u8>)
    ensures
        ({
            let label: Seq<char> = seq![
                'v', 'e', 'r', 'i', 's', 'h', 'a', 'r', 'e', '-', 'v', '1', '-', 's', 'e', 's', 's',
                'i', 'o', 'n', '-', 'k', 'e', 'y',
            ];
            let shared = x25519_product(secret, their_public);
            let hashed = Seq::new(
                24 + shared.len(),
                |i: int|
                    if i < 24 {
                        label[i] as u8
                    } else {
                        shared[i - 24]
                    },
            );
            session_key(secret, their_public) == sha256(hashed)
        }),
{
    reveal_strlit("verishare-v1-session-key");
    vstd::utf8::is_ascii_chars_encode_utf8("verishare-v1-session-key"@);
    let label: Seq<char> = seq![
        'v', 'e', 'r', 'i', 's', 'h', 'a', 'r', 'e', '-', 'v', '1', '-', 's', 'e', 's', 's', 'i',
        'o', 'n', '-', 'k', 'e', 'y',
    ];
    assert(label == "verishare-v1-session-key"@);
    let shared = x25519_product(secret, their_public);
    let hashed = Seq::new(
        24 + shared.len(),
        |i: int|
            if i < 24 {
                label[i] as u8
            } else {
                shared[i - 24]
            },
    );
    assert(session_label() + shared == hashed);
}

/// The base point is nine, in thirty-two bytes with the least significant first.
pub proof fn the_base_point_is_nine()
    ensures
        base_point().len() == 32,
        base_point()[0] == 9,
        forall|i: int| 1 <= i < 32 ==> #[trigger] base_point()[i] == 0,
{
}

/// A pair of keys belongs together: the public key is what the secret key makes of the base
/// point, and two pairs with one secret key are one pair.
pub proof fn a_secret_key_has_one_public_key(secret: Seq<u8>, a: Seq<u8>, b: Seq<u8>)
    requires
        is_keypair(secret, a),
        is_keypair(secret, b),
    ensures
        a == b,
        a == x25519_product(secret, base_point()),
        secret.len() == 32,
{
}

} // verus!
