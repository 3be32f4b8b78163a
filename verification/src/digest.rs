//! SHA-256 over the whole of a file, taken in piece by piece.

use sha2::Digest;
use vstd::prelude::*;

verus! {

/// The SHA-256 hasher of the `sha2` crate.
#[verifier::external_type_specification]
#[verifier::external_body]
pub struct ExSha256(sha2::Sha256);

/// The bytes that a hasher has taken in so far, in order.
pub uninterp spec fn absorbed(hasher: sha2::Sha256) -> Seq<u8>;

/// The SHA-256 digest of a message.
pub uninterp spec fn sha256(message: Seq<u8>) -> Seq<u8>;

/// A message of this many bytes is too long for the 64-bit count of bits that
/// SHA-256 ends with.
pub const HASH_LIMIT: u64 = 0x2000_0000_0000_0000;

/// `sha2::Sha256::new`: the hasher that it gives has taken in nothing.
#[verifier::external_body]
fn hasher_new() -> (hasher: sha2::Sha256)
    ensures
        absorbed(hasher) == Seq::<u8>::empty(),
{
    sha2::Sha256::new()
}

/// `sha2::Sha256::update`: the hasher takes in `data` behind what it has taken
/// in before.
#[verifier::external_body]
fn hasher_update(hasher: &mut sha2::Sha256, data: &[u8])
    requires
        absorbed(*old(hasher)).len() + data@.len() < HASH_LIMIT,
    ensures
        absorbed(*final(hasher)) == absorbed(*old(hasher)) + data@,
{
    hasher.update(data);
}

/// `sha2::Sha256::finalize`: the digest of what the hasher has taken in.
#[verifier::external_body]
fn hasher_finalize(hasher: sha2::Sha256) -> (digest: [u8; 32])
    requires
        absorbed(hasher).len() < HASH_LIMIT,
    ensures
        digest@ == sha256(absorbed(hasher)),
{
    hasher.finalize().into()
}

/// The SHA-256 of a file under way, and how many bytes it covers.
pub struct FileDigest {
    hasher: sha2::Sha256,
    len: u64,
}

impl View for FileDigest {
    type V = Seq<u8>;

    /// The bytes that the digest covers. Their number is what `len` holds.
    closed spec fn view(&self) -> Seq<u8> {
        absorbed(self.hasher)
    }
}

impl FileDigest {
    #[verifier::type_invariant]
    spec fn wf(self) -> bool {
        absorbed(self.hasher).len() == self.len < HASH_LIMIT
    }

    /// The digest of nothing.
    pub fn new() -> (digest: FileDigest)
        ensures
            digest@ == Seq::<u8>::empty(),
    {
        FileDigest { hasher: hasher_new(), len: 0 }
    }

    /// How many bytes the digest covers.
    pub fn len(&self) -> (len: u64)
        ensures
            len == self@.len(),
            len < HASH_LIMIT,
    {
        proof {
            use_type_invariant(self);
        }
        self.len
    }

    /// The digest that covers `data` too, behind the rest.
    pub fn with(self, data: &[u8]) -> (digest: FileDigest)
        requires
            self@.len() + data@.len() < HASH_LIMIT,
        ensures
            digest@ == self@ + data@,
    {
        proof {
            use_type_invariant(&self);
        }
        let mut hasher = self.hasher;
        hasher_update(&mut hasher, data);
        FileDigest { hasher, len: self.len + data.len() as u64 }
    }

    /// The 32 bytes of the digest.
    pub fn finish(self) -> (digest: [u8; 32])
        ensures
            digest@ == sha256(self@),
    {
        proof {
            use_type_invariant(&self);
        }
        hasher_finalize(self.hasher)
    }
}

/// The bytes that a digest covers, if there is one.
pub open spec fn digest_view(digest: Option<FileDigest>) -> Option<Seq<u8>> {
    match digest {
        Some(d) => Some(d@),
        None => None,
    }
}

/// The hexadecimal digit for `v`, in lower case.
pub open spec fn hex_char(v: nat) -> char {
    if v < 10 {
        ('0' as nat + v) as char
    } else {
        ('a' as nat + (v - 10)) as char
    }
}

/// `bytes` in hexadecimal, two digits for each byte.
pub open spec fn hex(bytes: Seq<u8>) -> Seq<char>
    decreases bytes.len(),
{
    if bytes.len() == 0 {
        Seq::empty()
    } else {
        let last = bytes.last() as nat;
        hex(bytes.drop_last()).push(hex_char(last / 16)).push(hex_char(last % 16))
    }
}

/// The hexadecimal digit for `v`, in lower case.
fn hex_digit(v: u8) -> (c: char)
    requires
        v < 16,
    ensures
        c == hex_char(v as nat),
{
    if v < 10 {
        (48u8 + v) as char
    } else {
        (97u8 + (v - 10)) as char
    }
}

/// `bytes` in hexadecimal, two digits for each byte.
pub fn hex_text(bytes: &[u8]) -> (text: String)
    ensures
        text@ == hex(bytes@),
{
    let mut text = String::new();
    let mut i: usize = 0;
    while i < bytes.len()
        invariant
            i <= bytes@.len(),
            text@ == hex(bytes@.take(i as int)),
        decreases bytes@.len() - i,
    {
        let b: u8 = bytes[i];
        text.push(hex_digit(b / 16));
        text.push(hex_digit(b % 16));
        proof {
            assert(bytes@.take(i + 1).drop_last() == bytes@.take(i as int));
            assert(bytes@.take(i + 1).last() == b);
        }
        i += 1;
    }
    proof {
        assert(bytes@.take(i as int) == bytes@);
    }
    text
}

/// The checksum of a file: its SHA-256 in hexadecimal.
pub open spec fn checksum(file: Seq<u8>) -> Seq<char> {
    hex(sha256(file))
}

/// The checksum of the bytes that `digest` covers.
pub fn hex_digest(digest: FileDigest) -> (text: String)
    ensures
        text@ == checksum(digest@),
{
    let bytes = digest.finish();
    hex_text(bytes.as_slice())
}

/// Two sequences of bytes with the same hexadecimal text are the same.
pub proof fn hex_is_injective(a: Seq<u8>, b: Seq<u8>)
    requires
        hex(a) == hex(b),
    ensures
        a == b,
    decreases a.len(),
{
    hex_len(a);
    hex_len(b);
    if a.len() == 0 {
        assert(a == b);
    } else {
        let x = a.last() as nat;
        let y = b.last() as nat;
        let n = hex(a).len() as int;
        assert(hex(a)[n - 2] == hex_char(x / 16));
        assert(hex(b)[n - 2] == hex_char(y / 16));
        assert(hex(a)[n - 1] == hex_char(x % 16));
        assert(hex(b)[n - 1] == hex_char(y % 16));
        assert(x == y);
        assert(hex(a).take(n - 2) == hex(a.drop_last()));
        assert(hex(b).take(n - 2) == hex(b.drop_last()));
        hex_is_injective(a.drop_last(), b.drop_last());
        assert(a == a.drop_last().push(a.last()));
        assert(b == b.drop_last().push(b.last()));
    }
}

/// The hexadecimal text has two digits for each byte.
pub proof fn hex_len(bytes: Seq<u8>)
    ensures
        hex(bytes).len() == 2 * bytes.len(),
    decreases bytes.len(),
{
    if bytes.len() > 0 {
        hex_len(bytes.drop_last());
    }
}

/// A file is read in pieces of at most this many bytes for its digest.
pub const PREFIX_READ: usize = 0x10_0000;

/// The digest of the first bytes of a file under way.
pub struct PrefixHash {
    digest: FileDigest,
    remaining: u64,
}

/// How far the digest of the first bytes of a file has come.
pub struct Prefix {
    /// The bytes of the file that have been taken in.
    pub taken: Seq<u8>,
    /// How many bytes are still to come.
    pub remaining: u64,
}

impl View for PrefixHash {
    type V = Prefix;

    closed spec fn view(&self) -> Prefix {
        Prefix { taken: self.digest@, remaining: self.remaining }
    }
}

impl Prefix {
    /// How many bytes the next read of the file asks for, at most.
    pub open spec fn asks_for(self) -> nat {
        if self.remaining < PREFIX_READ {
            self.remaining as nat
        } else {
            PREFIX_READ as nat
        }
    }

    /// The digest once a read of the file gave `read`. Nothing means that the file has
    /// ended, and that is where the prefix ends too.
    pub open spec fn after(self, read: Seq<u8>) -> Prefix {
        Prefix {
            taken: self.taken + read,
            remaining: if read.len() == 0 {
                0
            } else {
                (self.remaining - read.len()) as u64
            },
        }
    }
}

impl PrefixHash {
    /// The next read of the file: at most this many bytes, and none once the
    /// prefix is complete.
    pub fn next_read(&self) -> (len: Option<usize>)
        ensures
            self@.remaining == 0 ==> len is None,
            self@.remaining > 0 ==> len == Some(self@.asks_for() as usize),
    {
        if self.remaining == 0 {
            None
        } else if self.remaining < PREFIX_READ as u64 {
            Some(self.remaining as usize)
        } else {
            Some(PREFIX_READ)
        }
    }

    /// Whether the digest has room for `n` more bytes.
    pub fn can_cover(&self, n: u64) -> (b: bool)
        ensures
            b == (self@.taken.len() + n < HASH_LIMIT),
    {
        n < HASH_LIMIT - self.digest.len()
    }

    /// Takes in what a read of the file gave.
    pub fn take(self, read: &[u8]) -> (next: PrefixHash)
        requires
            read@.len() <= self@.remaining,
            self@.taken.len() + read@.len() < HASH_LIMIT,
        ensures
            next@ == self@.after(read@),
    {
        if read.len() == 0 {
            proof {
                assert(self.digest@ + read@ == self.digest@);
            }
            PrefixHash { digest: self.digest, remaining: 0 }
        } else {
            let remaining: u64 = self.remaining - read.len() as u64;
            PrefixHash { digest: self.digest.with(read), remaining }
        }
    }

    /// The digest of what has been taken in.
    pub fn finish(self) -> (digest: FileDigest)
        ensures
            digest@ == self@.taken,
    {
        self.digest
    }
}

/// Begins the digest of the first `len` bytes of a file.
pub fn hash_prefix(len: u64) -> (prefix: PrefixHash)
    ensures
        prefix@ == (Prefix { taken: Seq::empty(), remaining: len }),
{
    PrefixHash { digest: FileDigest::new(), remaining: len }
}

/// The first `len` bytes of a file, or the whole file where it is shorter.
pub open spec fn beginning(file: Seq<u8>, len: u64) -> Seq<u8> {
    if len <= file.len() {
        file.take(len as int)
    } else {
        file
    }
}

/// The digest of the first `len` bytes of a file after so many reads of it.
pub open spec fn after_reads(len: u64, reads: Seq<Seq<u8>>) -> Prefix
    decreases reads.len(),
{
    if reads.len() == 0 {
        Prefix { taken: Seq::empty(), remaining: len }
    } else {
        after_reads(len, reads.drop_last()).after(reads.last())
    }
}

/// `reads` are what reading `file` from its start gave, one read after the other: each
/// gave no more than was asked for, went on where the last one ended, and gave nothing
/// only at the end of the file.
pub open spec fn are_reads(file: Seq<u8>, len: u64, reads: Seq<Seq<u8>>) -> bool
    decreases reads.len(),
{
    reads.len() > 0 ==> {
        let before = after_reads(len, reads.drop_last());
        let read = reads.last();
        let at = before.taken.len();
        &&& are_reads(file, len, reads.drop_last())
        &&& before.remaining > 0
        &&& read.len() <= before.asks_for()
        &&& at + read.len() <= file.len()
        &&& read == file.subrange(at as int, (at + read.len()) as int)
        &&& read.len() == 0 ==> at == file.len()
    }
}

/// At every moment the digest covers a beginning of the file.
proof fn reads_stay_on_course(file: Seq<u8>, len: u64, reads: Seq<Seq<u8>>)
    requires
        are_reads(file, len, reads),
    ensures
        ({
            let end = after_reads(len, reads);
            &&& end.taken.len() <= file.len()
            &&& end.taken == file.take(end.taken.len() as int)
            &&& end.remaining > 0 ==> end.taken.len() + end.remaining == len
            &&& end.remaining == 0 ==> end.taken == beginning(file, len)
        }),
    decreases reads.len(),
{
    assert(file.take(0) == Seq::<u8>::empty());
    assert(file.take(file.len() as int) == file);
    if reads.len() > 0 {
        reads_stay_on_course(file, len, reads.drop_last());
        let before = after_reads(len, reads.drop_last());
        let read = reads.last();
        assert(before.taken + read == file.take((before.taken.len() + read.len()) as int));
    }
}

/// The digest of the first `len` bytes of a file, once no read is left to be made,
/// covers these bytes, or the whole file where it is shorter.
pub proof fn a_prefix_is_covered(file: Seq<u8>, len: u64, reads: Seq<Seq<u8>>)
    requires
        are_reads(file, len, reads),
        after_reads(len, reads).remaining == 0,
    ensures
        after_reads(len, reads).taken == beginning(file, len),
{
    reads_stay_on_course(file, len, reads);
}

/// What a hexadecimal digit in lower case stands for.
pub open spec fn digit_of_hex(c: char) -> nat {
    if '0' <= c <= '9' {
        (c as nat - '0' as nat) as nat
    } else {
        (c as nat - 'a' as nat + 10) as nat
    }
}

/// Whether `c` is a hexadecimal digit in lower case.
pub open spec fn is_hex_digit(c: char) -> bool {
    '0' <= c <= '9' || 'a' <= c <= 'f'
}

/// Each byte is written as two digits in its place, the higher half first, and is read back
/// from them.
pub proof fn each_byte_is_two_digits(bytes: Seq<u8>, i: int)
    requires
        0 <= i < bytes.len(),
    ensures
        hex(bytes).len() == 2 * bytes.len(),
        is_hex_digit(hex(bytes)[2 * i]),
        is_hex_digit(hex(bytes)[2 * i + 1]),
        digit_of_hex(hex(bytes)[2 * i]) * 16 + digit_of_hex(hex(bytes)[2 * i + 1]) == bytes[i],
    decreases bytes.len(),
{
    hex_len(bytes);
    hex_len(bytes.drop_last());
    let last = bytes.last() as nat;
    if i == bytes.len() - 1 {
        assert(hex(bytes)[2 * i] == hex_char(last / 16));
        assert(hex(bytes)[2 * i + 1] == hex_char(last % 16));
    } else {
        each_byte_is_two_digits(bytes.drop_last(), i);
        assert(hex(bytes)[2 * i] == hex(bytes.drop_last())[2 * i]);
        assert(hex(bytes)[2 * i + 1] == hex(bytes.drop_last())[2 * i + 1]);
    }
}

/// The checksum of a file is its SHA-256, digit for digit.
pub proof fn a_checksum_is_the_sha256(file: Seq<u8>, i: int)
    requires
        0 <= i < sha256(file).len(),
    ensures
        checksum(file).len() == 2 * sha256(file).len(),
        is_hex_digit(checksum(file)[2 * i]),
        is_hex_digit(checksum(file)[2 * i + 1]),
        digit_of_hex(checksum(file)[2 * i]) * 16 + digit_of_hex(checksum(file)[2 * i + 1])
            == sha256(file)[i],
{
    each_byte_is_two_digits(sha256(file), i);
}

/// As long as bytes are to come, a read asks for some: for all of them, or for one mebibyte
/// where they are more. What it gives is taken in behind the rest and counted, and a read that
/// gives nothing is the last.
pub proof fn a_prefix_is_read_on(p: Prefix, read: Seq<u8>)
    requires
        read.len() <= p.remaining,
    ensures
        p.remaining > 0 ==> p.asks_for() > 0,
        p.remaining <= 1_048_576 ==> p.asks_for() == p.remaining,
        p.remaining > 1_048_576 ==> p.asks_for() == 1_048_576,
        p.after(read).taken == p.taken + read,
        read.len() > 0 ==> p.after(read).remaining == p.remaining - read.len(),
        read.len() == 0 ==> p.after(read).remaining == 0,
{
}

/// The beginning of a file is what the file begins with, as long as asked for or as the file.
pub proof fn a_beginning_is_what_comes_first(file: Seq<u8>, len: u64)
    ensures
        beginning(file, len).len() <= len && beginning(file, len).len() <= file.len(),
        beginning(file, len).len() == len || beginning(file, len).len() == file.len(),
        forall|i: int|
            0 <= i < beginning(file, len).len() ==> #[trigger] beginning(file, len)[i] == file[i],
{
}

} // verus!
