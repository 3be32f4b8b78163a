//! The encrypted channel of a connection.
//!
//! Everything that passes, messages and pieces of files alike, passes in
//! frames: four bytes with the length, most significant first, then the
//! AES-256-GCM ciphertext with its tag. The nonce of a frame is the salt of its
//! direction and the number of the frame. The salts of the two directions differ, so
//! no frame of a connection has the nonce of another.

use crate::bytes::{
    be_bytes, be_bytes_read_back, be_value, four_bytes_write_a_number, u32_be_bytes,
    u32_of_be_bytes, u64_be_bytes,
};
use crate::crypto::{decrypt, encrypt, gcm_opened, gcm_sealed, SEAL_LIMIT, TAG_LEN};
use vstd::prelude::*;

verus! {

/// Files pass in pieces of this many bytes, each sealed by itself.
pub const CHUNK_SIZE: usize = 4 * 1024 * 1024;

/// The length of a nonce.
pub const NONCE_LEN: usize = 12;

/// The length of a salt.
pub const SALT_LEN: usize = 4;

/// The length of what goes before each ciphertext.
pub const HEADER_LEN: usize = 4;

/// The longest ciphertext that is read: a piece of a file with some room.
pub const MAX_FRAME_LEN: usize = CHUNK_SIZE + 1024;

/// What one side of a connection holds: the key, and for each direction the
/// salt and the number of the next frame.
pub struct Channel {
    pub key: Seq<u8>,
    pub send_salt: Seq<u8>,
    pub recv_salt: Seq<u8>,
    pub send_counter: u64,
    pub recv_counter: u64,
}

impl Channel {
    /// The key and the salts have their lengths, and the salts of the two directions
    /// differ.
    pub open spec fn is_sound(self) -> bool {
        &&& self.key.len() == 32
        &&& self.send_salt.len() == SALT_LEN
        &&& self.recv_salt.len() == SALT_LEN
        &&& self.send_salt != self.recv_salt
    }

    /// The nonce of frame number `counter`, sent or received.
    pub open spec fn nonce(self, sent: bool, counter: u64) -> Seq<u8> {
        nonce_of(
            if sent {
                self.send_salt
            } else {
                self.recv_salt
            },
            counter,
        )
    }
}

/// One side of a connection.
pub struct SecureStream {
    key: [u8; 32],
    send_salt: [u8; 4],
    recv_salt: [u8; 4],
    send_counter: u64,
    recv_counter: u64,
}

impl View for SecureStream {
    type V = Channel;

    closed spec fn view(&self) -> Channel {
        Channel {
            key: self.key@,
            send_salt: self.send_salt@,
            recv_salt: self.recv_salt@,
            send_counter: self.send_counter,
            recv_counter: self.recv_counter,
        }
    }
}

/// Why a connection cannot be used.
#[derive(Clone, Copy, Debug, PartialEq, Eq, Structural)]
pub enum ChannelError {
    /// Both directions have one salt, so their nonces would be the same.
    EqualSalts,
}

impl ChannelError {
    /// The message for the user.
    pub open spec fn text(self) -> Seq<char> {
        match self {
            ChannelError::EqualSalts => "iki yönün oturum tuzu aynı"@,
        }
    }

    /// The message for the user.
    pub fn message(&self) -> (text: &'static str)
        ensures
            text@ == self.text(),
    {
        match self {
            ChannelError::EqualSalts => "iki yönün oturum tuzu aynı",
        }
    }
}

/// Why a frame could not be written or read.
#[derive(Clone, Copy, Debug, PartialEq, Eq, Structural)]
pub enum FrameError {
    /// The message is too long to be sealed.
    Encryption,
    /// The frame is longer than any frame may be.
    TooLong,
    /// The frame was damaged, or sealed under another key or number.
    Decryption,
}

impl FrameError {
    /// The message for the user.
    pub open spec fn text(self) -> Seq<char> {
        match self {
            FrameError::Encryption => "şifreleme hatası"@,
            FrameError::TooLong => "çerçeve boyutu sınırı aşıldı"@,
            FrameError::Decryption =>
                "şifre çözme başarısız — bağlantı bozulmuş veya bütünlük ihlali"@,
        }
    }

    /// The message for the user.
    pub fn message(&self) -> (text: &'static str)
        ensures
            text@ == self.text(),
    {
        match self {
            FrameError::Encryption => "şifreleme hatası",
            FrameError::TooLong => "çerçeve boyutu sınırı aşıldı",
            FrameError::Decryption =>
                "şifre çözme başarısız — bağlantı bozulmuş veya bütünlük ihlali",
        }
    }
}

/// The nonce of frame number `counter` under `salt`.
pub open spec fn nonce_of(salt: Seq<u8>, counter: u64) -> Seq<u8> {
    salt + be_bytes(counter as nat, 8)
}

/// A ciphertext with its length before it. The length is written in 32 bits.
pub open spec fn framed(ciphertext: Seq<u8>) -> Seq<u8> {
    be_bytes(ciphertext.len() % 0x1_0000_0000, 4) + ciphertext
}

/// The ciphertext of `plaintext` as the next frame of `channel`.
pub open spec fn sealed(channel: Channel, plaintext: Seq<u8>) -> Seq<u8> {
    gcm_sealed(channel.key, nonce_of(channel.send_salt, channel.send_counter), plaintext)
}

/// `ciphertext` is as long as a sealed `plaintext`, and opens to it as frame
/// number `counter` under `key` and `salt`.
pub open spec fn opens_to(
    key: Seq<u8>,
    salt: Seq<u8>,
    counter: u64,
    ciphertext: Seq<u8>,
    plaintext: Seq<u8>,
) -> bool {
    &&& ciphertext.len() == plaintext.len() + TAG_LEN
    &&& gcm_opened(key, nonce_of(salt, counter), ciphertext) == Some(plaintext)
}

/// How far the reading of a frame has come.
pub enum At {
    /// Nothing of the frame has been read.
    Start,
    /// The header has begun with these bytes.
    Header(Seq<u8>),
    /// The header is complete; the ciphertext has this many bytes.
    Body(nat),
}

/// What comes of a read.
pub enum Outcome {
    /// The connection was closed before the frame began.
    Closed,
    /// This many bytes more are needed, exactly.
    Need(At, nat),
    /// The frame is complete.
    Frame(Seq<u8>),
    /// The frame is refused.
    Refused(FrameError),
}

/// What comes of a complete header.
pub open spec fn after_header(header: Seq<u8>) -> Outcome {
    let len = be_value(header);
    if len > MAX_FRAME_LEN {
        Outcome::Refused(FrameError::TooLong)
    } else {
        Outcome::Need(At::Body(len), len)
    }
}

/// What comes of a read that gave `bytes`.
pub open spec fn after_read(channel: Channel, at: At, bytes: Seq<u8>) -> Outcome {
    match at {
        At::Start => if bytes.len() == 0 {
            Outcome::Closed
        } else if bytes.len() < HEADER_LEN {
            Outcome::Need(At::Header(bytes), (HEADER_LEN - bytes.len()) as nat)
        } else {
            after_header(bytes)
        },
        At::Header(have) => after_header(have + bytes),
        At::Body(len) => match gcm_opened(
            channel.key,
            nonce_of(channel.recv_salt, channel.recv_counter),
            bytes,
        ) {
            Some(plaintext) => Outcome::Frame(plaintext),
            None => Outcome::Refused(FrameError::Decryption),
        },
    }
}

/// How far the reading of a frame has come.
pub enum FrameState {
    /// Nothing of the frame has been read: read up to four bytes.
    Start,
    /// The header has begun with these bytes: read the rest of it.
    Header(Vec<u8>),
    /// The header is complete: read this many bytes.
    Body(usize),
}

impl View for FrameState {
    type V = At;

    open spec fn view(&self) -> At {
        match self {
            FrameState::Start => At::Start,
            FrameState::Header(have) => At::Header(have@),
            FrameState::Body(len) => At::Body(*len as nat),
        }
    }
}

impl FrameState {
    /// Whether a read may have given `n` bytes here.
    pub open spec fn admits(self, n: nat) -> bool {
        match self@ {
            At::Start => n <= HEADER_LEN,
            At::Header(have) => 0 < have.len() < HEADER_LEN && n == HEADER_LEN - have.len(),
            At::Body(len) => n == len,
        }
    }
}

/// What comes of a read.
pub enum FrameStep {
    /// The connection was closed before the frame began.
    Closed,
    /// Exactly so many bytes more are to be read, for the state given.
    Need(FrameState, usize),
    /// The frame is complete: its plaintext.
    Frame(Vec<u8>),
}

/// `step` is what `outcome` says.
pub open spec fn step_is(step: Result<FrameStep, FrameError>, outcome: Outcome) -> bool {
    match (step, outcome) {
        (Ok(FrameStep::Closed), Outcome::Closed) => true,
        (Ok(FrameStep::Need(state, n)), Outcome::Need(at, needed)) => {
            &&& state@ == at
            &&& n == needed
            &&& state.admits(needed)
        },
        (Ok(FrameStep::Frame(plaintext)), Outcome::Frame(p)) => plaintext@ == p,
        (Err(e), Outcome::Refused(refusal)) => e == refusal,
        _ => false,
    }
}

impl SecureStream {
    #[verifier::type_invariant]
    spec fn wf(self) -> bool {
        self@.is_sound()
    }

    /// A channel at its beginning. The salts of its two directions have to differ.
    pub fn new(key: [u8; 32], send_salt: [u8; 4], recv_salt: [u8; 4]) -> (stream: Result<
        SecureStream,
        ChannelError,
    >)
        ensures
            stream matches Ok(stream) ==> {
                &&& stream@ == (Channel {
                    key: key@,
                    send_salt: send_salt@,
                    recv_salt: recv_salt@,
                    send_counter: 0,
                    recv_counter: 0,
                })
                &&& stream@.is_sound()
            },
            stream is Ok <==> send_salt@ != recv_salt@,
            stream matches Err(e) ==> e == ChannelError::EqualSalts,
    {
        if send_salt[0] == recv_salt[0] && send_salt[1] == recv_salt[1] && send_salt[2]
            == recv_salt[2] && send_salt[3] == recv_salt[3] {
            proof {
                assert(send_salt@ == recv_salt@);
            }
            return Err(ChannelError::EqualSalts);
        }
        Ok(SecureStream { key, send_salt, recv_salt, send_counter: 0, recv_counter: 0 })
    }

    /// Whether one more frame can be written.
    pub fn can_write(&self) -> (b: bool)
        ensures
            b == (self@.send_counter < u64::MAX),
    {
        self.send_counter < u64::MAX
    }

    /// Whether one more frame can be read.
    pub fn can_read(&self) -> (b: bool)
        ensures
            b == (self@.recv_counter < u64::MAX),
    {
        self.recv_counter < u64::MAX
    }

    /// The nonce of frame number `counter` under `salt`.
    pub fn build_nonce(salt: &[u8; 4], counter: u64) -> (nonce: [u8; 12])
        ensures
            nonce@ == nonce_of(salt@, counter),
    {
        let c = u64_be_bytes(counter);
        let nonce: [u8; 12] = [
            salt[0],
            salt[1],
            salt[2],
            salt[3],
            c[0],
            c[1],
            c[2],
            c[3],
            c[4],
            c[5],
            c[6],
            c[7],
        ];
        proof {
            assert(nonce@ == nonce_of(salt@, counter));
        }
        nonce
    }

    /// Seals `plaintext` as the next frame; the result goes out on the connection.
    pub fn write_frame(&mut self, plaintext: &[u8]) -> (frame: Result<Vec<u8>, FrameError>)
        requires
            old(self)@.send_counter < u64::MAX,
            plaintext@.len() + TAG_LEN <= isize::MAX,
        ensures
            final(self)@ == (Channel {
                send_counter: (old(self)@.send_counter + 1) as u64,
                ..old(self)@
            }),
            final(self)@.is_sound(),
            frame is Ok <==> plaintext@.len() <= SEAL_LIMIT,
            frame matches Ok(bytes) ==> {
                &&& bytes@ == framed(sealed(old(self)@, plaintext@))
                &&& opens_to(
                    old(self)@.key,
                    old(self)@.send_salt,
                    old(self)@.send_counter,
                    sealed(old(self)@, plaintext@),
                    plaintext@,
                )
            },
            frame matches Err(e) ==> e == FrameError::Encryption,
    {
        proof {
            use_type_invariant(&*self);
        }
        let nonce = SecureStream::build_nonce(&self.send_salt, self.send_counter);
        self.send_counter = self.send_counter + 1;
        match encrypt(&self.key, &nonce, plaintext) {
            Ok(ciphertext) => {
                let len: u64 = ciphertext.len() as u64 % 0x1_0000_0000;
                let header = u32_be_bytes(len as u32);
                let mut frame: Vec<u8> = Vec::new();
                frame.extend_from_slice(header.as_slice());
                frame.extend_from_slice(ciphertext.as_slice());
                proof {
                    assert(frame@ == framed(ciphertext@));
                }
                Ok(frame)
            },
            Err(_) => Err(FrameError::Encryption),
        }
    }

    /// Takes in what a read of the connection gave. A read at the start asks
    /// for up to four bytes, any other read for exactly what was needed.
    pub fn read_frame(&mut self, at: FrameState, bytes: &[u8]) -> (step: Result<
        FrameStep,
        FrameError,
    >)
        requires
            old(self)@.recv_counter < u64::MAX,
            at.admits(bytes@.len()),
        ensures
            step_is(step, after_read(old(self)@, at@, bytes@)),
            step matches Ok(FrameStep::Frame(p)) ==> p@.len() + TAG_LEN == bytes@.len(),
            bytes@.len() < TAG_LEN && at is Body ==> step == Err::<FrameStep, FrameError>(
                FrameError::Decryption,
            ),
            final(self)@.is_sound(),
            final(self)@ == (if at is Body {
                Channel { recv_counter: (old(self)@.recv_counter + 1) as u64, ..old(self)@ }
            } else {
                old(self)@
            }),
    {
        proof {
            use_type_invariant(&*self);
        }
        match at {
            FrameState::Start => {
                if bytes.len() == 0 {
                    Ok(FrameStep::Closed)
                } else if bytes.len() < HEADER_LEN {
                    let need: usize = HEADER_LEN - bytes.len();
                    let have = vstd::slice::slice_to_vec(bytes);
                    Ok(FrameStep::Need(FrameState::Header(have), need))
                } else {
                    frame_len(bytes)
                }
            },
            FrameState::Header(have) => {
                let mut header = have;
                header.extend_from_slice(bytes);
                proof {
                    assert(header@ == have@ + bytes@);
                }
                frame_len(header.as_slice())
            },
            FrameState::Body(_) => {
                let nonce = SecureStream::build_nonce(&self.recv_salt, self.recv_counter);
                self.recv_counter = self.recv_counter + 1;
                match decrypt(&self.key, &nonce, bytes) {
                    Ok(plaintext) => Ok(FrameStep::Frame(plaintext)),
                    Err(_) => Err(FrameError::Decryption),
                }
            },
        }
    }
}

/// What comes of a complete header.
fn frame_len(header: &[u8]) -> (step: Result<FrameStep, FrameError>)
    requires
        header@.len() == HEADER_LEN,
    ensures
        step_is(step, after_header(header@)),
{
    let len: u32 = u32_of_be_bytes(header);
    if len as usize > MAX_FRAME_LEN {
        Err(FrameError::TooLong)
    } else {
        Ok(FrameStep::Need(FrameState::Body(len as usize), len as usize))
    }
}

/// Two frames under one salt have different nonces.
pub proof fn nonces_of_one_salt_differ(salt: Seq<u8>, a: u64, b: u64)
    requires
        a != b,
    ensures
        nonce_of(salt, a) != nonce_of(salt, b),
{
    reveal_with_fuel(crate::bytes::byte_range, 9);
    be_bytes_read_back(a as nat, 8);
    be_bytes_read_back(b as nat, 8);
    assert(nonce_of(salt, a).skip(salt.len() as int) == be_bytes(a as nat, 8));
    assert(nonce_of(salt, b).skip(salt.len() as int) == be_bytes(b as nat, 8));
}

/// Where the salts of the two directions differ, no nonce of the one is a nonce
/// of the other.
pub proof fn nonces_of_two_salts_differ(salt_a: Seq<u8>, salt_b: Seq<u8>, a: u64, b: u64)
    requires
        salt_a.len() == SALT_LEN,
        salt_b.len() == SALT_LEN,
        salt_a != salt_b,
    ensures
        nonce_of(salt_a, a) != nonce_of(salt_b, b),
{
    assert(nonce_of(salt_a, a).take(SALT_LEN as int) == salt_a);
    assert(nonce_of(salt_b, b).take(SALT_LEN as int) == salt_b);
}

/// No two frames of a connection have one nonce, whichever way they go.
pub proof fn no_two_frames_share_a_nonce(
    channel: Channel,
    sent_a: bool,
    a: u64,
    sent_b: bool,
    b: u64,
)
    requires
        channel.is_sound(),
        sent_a != sent_b || a != b,
    ensures
        channel.nonce(sent_a, a) != channel.nonce(sent_b, b),
{
    if sent_a != sent_b {
        if sent_a {
            nonces_of_two_salts_differ(channel.send_salt, channel.recv_salt, a, b);
        } else {
            nonces_of_two_salts_differ(channel.recv_salt, channel.send_salt, a, b);
        }
    } else if sent_a {
        nonces_of_one_salt_differ(channel.send_salt, a, b);
    } else {
        nonces_of_one_salt_differ(channel.recv_salt, a, b);
    }
}

/// The header of a frame that can be read gives back the length of its ciphertext.
proof fn header_is_read_back(ciphertext: Seq<u8>)
    requires
        ciphertext.len() <= MAX_FRAME_LEN,
    ensures
        framed(ciphertext).len() == HEADER_LEN + ciphertext.len(),
        be_value(framed(ciphertext).take(HEADER_LEN as int)) == ciphertext.len(),
        framed(ciphertext).skip(HEADER_LEN as int) == ciphertext,
{
    let n = ciphertext.len() % 0x1_0000_0000;
    assert(n == ciphertext.len());
    reveal_with_fuel(crate::bytes::byte_range, 5);
    be_bytes_read_back(n, 4);
    assert(framed(ciphertext).take(HEADER_LEN as int) == be_bytes(n, 4));
    assert(framed(ciphertext).skip(HEADER_LEN as int) == ciphertext);
}

/// A read gives back what was written: a frame that one side has written, of a
/// message that fits in a frame, is read by the other side as that message. It
/// makes no difference how many of the four bytes of the header came at once.
pub proof fn a_frame_is_read_back(
    writer: Channel,
    reader: Channel,
    plaintext: Seq<u8>,
    at_once: int,
)
    requires
        reader.key == writer.key,
        reader.recv_salt == writer.send_salt,
        reader.recv_counter == writer.send_counter,
        plaintext.len() + TAG_LEN <= MAX_FRAME_LEN,
        opens_to(
            writer.key,
            writer.send_salt,
            writer.send_counter,
            sealed(writer, plaintext),
            plaintext,
        ),
        0 < at_once <= HEADER_LEN,
    ensures
        ({
            let frame = framed(sealed(writer, plaintext));
            let len = (plaintext.len() + TAG_LEN) as nat;
            let first = after_read(reader, At::Start, frame.take(at_once));
            let header_read = if at_once < HEADER_LEN {
                after_read(
                    reader,
                    At::Header(frame.take(at_once)),
                    frame.subrange(at_once, HEADER_LEN as int),
                )
            } else {
                first
            };
            &&& at_once < HEADER_LEN ==> first == Outcome::Need(
                At::Header(frame.take(at_once)),
                (HEADER_LEN - at_once) as nat,
            )
            &&& header_read == Outcome::Need(At::Body(len), len)
            &&& frame.len() == HEADER_LEN + len
            &&& after_read(reader, At::Body(len), frame.skip(HEADER_LEN as int)) == Outcome::Frame(
                plaintext,
            )
        }),
{
    let ciphertext = sealed(writer, plaintext);
    let frame = framed(ciphertext);
    header_is_read_back(ciphertext);
    assert(frame.take(at_once) + frame.subrange(at_once, HEADER_LEN as int) == frame.take(
        HEADER_LEN as int,
    ));
}

/// The messages of a stream of whole frames, as a reader makes them out one by
/// one, if it refuses none.
pub open spec fn read_stream(reader: Channel, stream: Seq<u8>) -> Option<Seq<Seq<u8>>>
    decreases stream.len(),
{
    if stream.len() == 0 {
        Some(Seq::empty())
    } else if stream.len() < HEADER_LEN {
        None
    } else {
        let len = be_value(stream.take(HEADER_LEN as int));
        if len > MAX_FRAME_LEN || HEADER_LEN + len > stream.len() {
            None
        } else {
            let body = stream.subrange(HEADER_LEN as int, HEADER_LEN + len);
            match after_read(reader, At::Body(len), body) {
                Outcome::Frame(plaintext) => {
                    let rest = read_stream(
                        Channel { recv_counter: (reader.recv_counter + 1) as u64, ..reader },
                        stream.skip(HEADER_LEN + len),
                    );
                    match rest {
                        Some(plaintexts) => Some(seq![plaintext] + plaintexts),
                        None => None,
                    }
                },
                _ => None,
            }
        }
    }
}

/// The bytes that go out when `plaintexts` are written one after the other.
pub open spec fn written(writer: Channel, plaintexts: Seq<Seq<u8>>) -> Seq<u8>
    decreases plaintexts.len(),
{
    if plaintexts.len() == 0 {
        Seq::empty()
    } else {
        framed(sealed(writer, plaintexts.first())) + written(
            Channel { send_counter: (writer.send_counter + 1) as u64, ..writer },
            plaintexts.drop_first(),
        )
    }
}

/// Each of `plaintexts` fits in a frame, and its frame opens to it, as writing
/// it has shown.
pub open spec fn all_written(writer: Channel, plaintexts: Seq<Seq<u8>>) -> bool
    decreases plaintexts.len(),
{
    plaintexts.len() > 0 ==> {
        let plaintext = plaintexts.first();
        &&& plaintext.len() + TAG_LEN <= MAX_FRAME_LEN
        &&& opens_to(
            writer.key,
            writer.send_salt,
            writer.send_counter,
            sealed(writer, plaintext),
            plaintext,
        )
        &&& all_written(
            Channel { send_counter: (writer.send_counter + 1) as u64, ..writer },
            plaintexts.drop_first(),
        )
    }
}

/// What one side writes, frame after frame, the other side reads: the same
/// messages, in order, and nothing else.
pub proof fn a_stream_is_read_back(writer: Channel, reader: Channel, plaintexts: Seq<Seq<u8>>)
    requires
        reader.key == writer.key,
        reader.recv_salt == writer.send_salt,
        reader.recv_counter == writer.send_counter,
        all_written(writer, plaintexts),
    ensures
        read_stream(reader, written(writer, plaintexts)) == Some(plaintexts),
    decreases plaintexts.len(),
{
    let stream = written(writer, plaintexts);
    if plaintexts.len() > 0 {
        let plaintext = plaintexts.first();
        let ciphertext = sealed(writer, plaintext);
        let frame = framed(ciphertext);
        let next_writer = Channel { send_counter: (writer.send_counter + 1) as u64, ..writer };
        let next_reader = Channel { recv_counter: (reader.recv_counter + 1) as u64, ..reader };
        let rest = written(next_writer, plaintexts.drop_first());
        header_is_read_back(ciphertext);
        assert(stream.take(HEADER_LEN as int) == frame.take(HEADER_LEN as int));
        assert(stream.subrange(HEADER_LEN as int, HEADER_LEN + ciphertext.len()) == frame.skip(
            HEADER_LEN as int,
        ));
        assert(stream.skip(HEADER_LEN + ciphertext.len() as int) == rest);
        a_stream_is_read_back(next_writer, next_reader, plaintexts.drop_first());
        assert(seq![plaintext] + plaintexts.drop_first() == plaintexts);
    } else {
        assert(plaintexts == Seq::<Seq<u8>>::empty());
    }
}

/// The nonce of a frame is the salt and behind it the number of the frame in eight bytes, most
/// significant first.
pub proof fn a_nonce_is_salt_and_number(salt: Seq<u8>, counter: u64)
    ensures
        nonce_of(salt, counter).len() == salt.len() + 8,
        nonce_of(salt, counter).take(salt.len() as int) == salt,
        be_value(nonce_of(salt, counter).skip(salt.len() as int)) == counter,
{
    reveal_with_fuel(crate::bytes::byte_range, 9);
    be_bytes_read_back(counter as nat, 8);
    assert(nonce_of(salt, counter).take(salt.len() as int) == salt);
    assert(nonce_of(salt, counter).skip(salt.len() as int) == be_bytes(counter as nat, 8));
}

/// A frame that can be written is four bytes with the length of the ciphertext, most
/// significant first, and then the ciphertext, all of it and nothing else.
pub proof fn a_frame_says_its_length(ciphertext: Seq<u8>)
    requires
        ciphertext.len() < 0x1_0000_0000,
    ensures
        ({
            let frame = framed(ciphertext);
            &&& frame.len() == 4 + ciphertext.len()
            &&& frame[0] as nat * 16_777_216 + frame[1] as nat * 65_536 + frame[2] as nat * 256
                + frame[3] as nat == ciphertext.len()
            &&& frame.skip(4) == ciphertext
        }),
{
    reveal_with_fuel(crate::bytes::byte_range, 5);
    be_bytes_read_back(ciphertext.len(), 4);
    let frame = framed(ciphertext);
    let header = be_bytes(ciphertext.len(), 4);
    four_bytes_write_a_number(frame[0], frame[1], frame[2], frame[3]);
    assert(header == seq![frame[0], frame[1], frame[2], frame[3]]);
    assert(frame.skip(4) == ciphertext);
}

/// What a read leads to. Nothing at the beginning of a frame is the end of the connection. A
/// header that has not come whole is completed. A whole header leads to as many bytes as it
/// says, unless they are more than four mebibytes and one kibibyte. A whole ciphertext leads to
/// what it opens to under the key, the salt of the other side and the number of the frame, or
/// is refused.
pub proof fn a_read_leads_on(channel: Channel, bytes: Seq<u8>, have: Seq<u8>, len: nat)
    ensures
        after_read(channel, At::Start, bytes) is Closed <==> bytes.len() == 0,
        0 < bytes.len() < 4 ==> {
            let outcome = after_read(channel, At::Start, bytes);
            &&& outcome is Need
            &&& outcome->Need_0 is Header
            &&& outcome->Need_0->Header_0 == bytes
            &&& outcome->Need_1 == 4 - bytes.len()
        },
        bytes.len() == 4 ==> {
            let outcome = after_read(channel, At::Start, bytes);
            let said = bytes[0] as nat * 16_777_216 + bytes[1] as nat * 65_536 + bytes[2] as nat
                * 256 + bytes[3] as nat;
            &&& said <= 4_195_328 ==> outcome == Outcome::Need(At::Body(said), said)
            &&& said > 4_195_328 ==> outcome == Outcome::Refused(FrameError::TooLong)
        },
        have.len() > 0 && have.len() + bytes.len() == 4 ==> after_read(
            channel,
            At::Header(have),
            bytes,
        ) == after_read(channel, At::Start, have + bytes),
        ({
            let outcome = after_read(channel, At::Body(len), bytes);
            let opened = gcm_opened(
                channel.key,
                nonce_of(channel.recv_salt, channel.recv_counter),
                bytes,
            );
            &&& opened matches Some(plaintext) ==> outcome == Outcome::Frame(plaintext)
            &&& opened is None ==> outcome == Outcome::Refused(FrameError::Decryption)
        }),
{
    if bytes.len() == 4 {
        four_bytes_write_a_number(bytes[0], bytes[1], bytes[2], bytes[3]);
        assert(bytes == seq![bytes[0], bytes[1], bytes[2], bytes[3]]);
    }
}

/// A step is what an outcome says, in every respect.
pub proof fn a_step_says_what_came_of_a_read(
    step: Result<FrameStep, FrameError>,
    outcome: Outcome,
)
    requires
        step_is(step, outcome),
    ensures
        step is Err <==> outcome is Refused,
        step matches Err(e) ==> outcome == Outcome::Refused(e),
        step matches Ok(FrameStep::Closed) ==> outcome is Closed,
        outcome is Closed ==> step matches Ok(FrameStep::Closed),
        step matches Ok(FrameStep::Need(state, n)) ==> outcome == Outcome::Need(state@, n as nat),
        step matches Ok(FrameStep::Frame(plaintext)) ==> outcome == Outcome::Frame(plaintext@),
{
}

/// A state is seen as it is.
pub proof fn a_reading_state_is_seen_as_it_is(state: FrameState)
    ensures
        state is Start <==> state@ is Start,
        state is Header <==> state@ is Header,
        state is Header ==> state@->Header_0 == state->Header_0@,
        state is Body <==> state@ is Body,
        state is Body ==> state@->Body_0 == state->Body_0,
        state is Start ==> forall|n: nat| #[trigger] state.admits(n) <==> n <= 4,
        state is Header && 0 < state->Header_0@.len() < 4 ==> forall|n: nat| #[trigger]
            state.admits(n) <==> n + state->Header_0@.len() == 4,
        state is Body ==> forall|n: nat| #[trigger] state.admits(n) <==> n == state->Body_0,
{
}

/// What is sealed is sealed under the key of the connection and the nonce of the next frame,
/// which holds the salt of this side and the number of the frame.
pub proof fn a_frame_is_sealed_under_its_own_nonce(channel: Channel, plaintext: Seq<u8>)
    ensures
        sealed(channel, plaintext) == gcm_sealed(
            channel.key,
            channel.nonce(true, channel.send_counter),
            plaintext,
        ),
        channel.nonce(true, channel.send_counter).take(channel.send_salt.len() as int)
            == channel.send_salt,
        channel.nonce(false, channel.recv_counter).take(channel.recv_salt.len() as int)
            == channel.recv_salt,
        be_value(
            channel.nonce(true, channel.send_counter).skip(channel.send_salt.len() as int),
        ) == channel.send_counter,
{
    a_nonce_is_salt_and_number(channel.send_salt, channel.send_counter);
    a_nonce_is_salt_and_number(channel.recv_salt, channel.recv_counter);
}

/// No two reasons why a frame was not taken read the same.
pub proof fn no_two_frame_errors_read_the_same(a: FrameError, b: FrameError)
    requires
        a.text() == b.text(),
    ensures
        a == b,
{
    reveal_strlit("şifreleme hatası");
    reveal_strlit("çerçeve boyutu sınırı aşıldı");
    reveal_strlit("şifre çözme başarısız — bağlantı bozulmuş veya bütünlük ihlali");
    assert("şifreleme hatası"@[5] == 'l');
    assert("çerçeve boyutu sınırı aşıldı"@[0] == 'ç');
    assert("şifre çözme başarısız — bağlantı bozulmuş veya bütünlük ihlali"@[5] == ' ');
    assert("şifreleme hatası"@[0] == 'ş');
    assert("şifre çözme başarısız — bağlantı bozulmuş veya bütünlük ihlali"@[0] == 'ş');
}

} // verus!
