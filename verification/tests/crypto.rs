use aes_gcm::aead::{Aead, KeyInit};
use sha2::Digest;
use verishare::bytes::{u32_be_bytes, u32_of_be_bytes, u64_be_bytes};
use verishare::channel::{
    ChannelError, FrameError, FrameState, FrameStep, SecureStream, CHUNK_SIZE, HEADER_LEN, MAX_FRAME_LEN,
};
use verishare::crypto::{
    agree, derive_key, drawn, gen_keypair, gen_salt, keypair_of, public_key, CryptoError,
};
use verishare::digest::{
    hash_prefix, hex_digest, hex_text, FileDigest, HASH_LIMIT, PREFIX_READ,
};
use verishare::handshake::{handshake_of, Handshake, HandshakeAction, Role};
use verishare::identity::{id_of, id_of_drawn, new_id};

fn sha(bytes: &[u8]) -> Vec<u8> {
    sha2::Sha256::digest(bytes).to_vec()
}

fn hex(bytes: &[u8]) -> String {
    let mut s = String::new();
    for b in bytes {
        s.push_str(&format!("{:02x}", b));
    }
    s
}

#[test]
fn numbers_have_their_bytes() {
    for x in [0u32, 1, 255, 256, 0x0102_0304, u32::MAX] {
        assert_eq!(u32_be_bytes(x), x.to_be_bytes());
        assert_eq!(u32_of_be_bytes(&x.to_be_bytes()), x);
    }
    for x in [0u64, 1, 255, 0x0102_0304_0506_0708, u64::MAX] {
        assert_eq!(u64_be_bytes(x), x.to_be_bytes());
    }
}

#[test]
fn digests_cover_what_they_are_given() {
    assert_eq!(
        hex_digest(FileDigest::new()),
        "e3b0c44298fc1c149afbf4c8996fb92427ae41e4649b934ca495991b7852b855"
    );
    let d = FileDigest::new().with(b"a").with(b"").with(b"bc");
    assert_eq!(d.len(), 3);
    assert_eq!(
        hex_digest(d),
        "ba7816bf8f01cfea414140de5dae2223b00361a396177a9cb410ff61f20015ad"
    );
    let d = FileDigest::new().with(b"some").with(b" file").finish();
    assert_eq!(d.to_vec(), sha(b"some file"));
}

#[test]
fn hexadecimal_has_two_digits_for_each_byte() {
    assert_eq!(hex_text(&[]), "");
    assert_eq!(hex_text(&[0, 9, 10, 15, 16, 0xab, 255]), "00090a0f10abff");
    let all: Vec<u8> = (0..=255).collect();
    assert_eq!(hex_text(&all), hex(&all));
}

#[test]
fn the_beginning_of_a_file_is_hashed() {
    let file: Vec<u8> = (0..PREFIX_READ + 100).map(|i| (i % 251) as u8).collect();
    let len = PREFIX_READ as u64 + 40;
    let mut h = hash_prefix(len);
    let mut at = 0;
    while let Some(n) = h.next_read() {
        assert!(n <= PREFIX_READ);
        let read = &file[at..at + n];
        at += n;
        assert!(h.can_cover(n as u64));
        h = h.take(read);
    }
    assert_eq!(at as u64, len);
    assert_eq!(h.finish().finish().to_vec(), sha(&file[..at]));
}

#[test]
fn a_file_that_ends_early_ends_its_hash() {
    let h = hash_prefix(100);
    assert_eq!(h.next_read(), Some(100));
    let h = h.take(b"short");
    assert_eq!(h.next_read(), Some(95));
    let h = h.take(b"");
    assert_eq!(h.next_read(), None);
    assert_eq!(hex_digest(h.finish()), hex(&sha(b"short")));
    assert_eq!(hash_prefix(0).next_read(), None);
    let h = hash_prefix(u64::MAX);
    assert_eq!(h.next_read(), Some(PREFIX_READ));
    let h = h.take(b"abc");
    assert!(h.can_cover(HASH_LIMIT - 4));
    assert!(!h.can_cover(HASH_LIMIT - 3));
    assert_eq!(hex_digest(h.take(b"").finish()), hex(&sha(b"abc")));
}

#[test]
fn public_keys_are_multiples_of_the_base_point() {
    for secret in [[0u8; 32], [1u8; 32], [7u8; 32], [255u8; 32]] {
        assert_eq!(
            public_key(secret),
            x25519_dalek::x25519(secret, x25519_dalek::X25519_BASEPOINT_BYTES)
        );
    }
}

#[test]
fn session_keys_come_from_the_shared_secret() {
    let a = [3u8; 32];
    let b = [200u8; 32];
    let shared = x25519_dalek::x25519(a, public_key(b));
    let mut message = b"verishare-v1-session-key".to_vec();
    message.extend_from_slice(&shared);
    assert_eq!(derive_key(&shared).to_vec(), sha(&message));
    assert_eq!(agree(a, public_key(b)), derive_key(&shared));
    assert_eq!(agree(b, public_key(a)), derive_key(&shared));
}

#[test]
fn fresh_keys_and_salts_are_drawn() {
    let (s1, p1) = gen_keypair().unwrap();
    let (s2, p2) = gen_keypair().unwrap();
    assert_ne!(s1, s2);
    assert_ne!(p1, p2);
    assert_eq!(public_key(s1), p1);
    assert_eq!(agree(s1, p2), agree(s2, p1));
    let salts: Vec<[u8; 4]> = (0..8).map(|_| gen_salt().unwrap()).collect();
    assert!(salts.iter().any(|s| *s != salts[0]));
}

#[test]
fn nonces_are_salt_and_counter() {
    assert_eq!(
        SecureStream::build_nonce(&[1, 2, 3, 4], 0x0506_0708_090a_0b0c),
        [1, 2, 3, 4, 5, 6, 7, 8, 9, 10, 11, 12]
    );
    assert_ne!(
        SecureStream::build_nonce(&[9; 4], 0),
        SecureStream::build_nonce(&[9; 4], 1)
    );
    assert_ne!(
        SecureStream::build_nonce(&[9; 4], 5),
        SecureStream::build_nonce(&[8; 4], 5)
    );
}

#[test]
fn frames_are_length_and_ciphertext() {
    let key = [42u8; 32];
    let mut s = SecureStream::new(key, [1, 2, 3, 4], [5, 6, 7, 8]).ok().unwrap();
    let cipher = aes_gcm::Aes256Gcm::new(aes_gcm::Key::<aes_gcm::Aes256Gcm>::from_slice(&key));
    let mut counter = 0u64;
    while counter < 3 {
        let mut nonce = [0u8; 12];
        nonce[..4].copy_from_slice(&[1, 2, 3, 4]);
        nonce[4..].copy_from_slice(&counter.to_be_bytes());
        let sealed = cipher
            .encrypt(aes_gcm::Nonce::from_slice(&nonce), &b"merhaba"[..])
            .unwrap();
        let mut expected = (sealed.len() as u32).to_be_bytes().to_vec();
        expected.extend_from_slice(&sealed);
        assert!(s.can_write());
        assert_eq!(s.write_frame(b"merhaba").unwrap(), expected);
        counter += 1;
    }
}

#[test]
fn a_known_frame_is_written() {
    let mut s = SecureStream::new([0; 32], [0; 4], [1; 4]).ok().unwrap();
    assert_eq!(
        hex(&s.write_frame(b"").unwrap()),
        "00000010530f8afbc74536b9a963b4f1c4cb738b"
    );
    let mut s = SecureStream::new([0; 32], [0; 4], [1; 4]).ok().unwrap();
    assert_eq!(
        hex(&s.write_frame(&[0; 16]).unwrap()),
        "00000020cea7403d4d606b6e074ec5d3baf39d18d0d1c8a799996bf0265b98b5d48ab919"
    );
}

fn read_one(s: &mut SecureStream, bytes: &[u8], at_once: usize) -> Result<Option<Vec<u8>>, FrameError> {
    let mut at = at_once.min(bytes.len());
    let mut step = s.read_frame(FrameState::Start, &bytes[..at])?;
    loop {
        match step {
            FrameStep::Closed => return Ok(None),
            FrameStep::Frame(p) => {
                assert_eq!(at, bytes.len());
                return Ok(Some(p));
            }
            FrameStep::Need(state, n) => {
                step = s.read_frame(state, &bytes[at..at + n])?;
                at += n;
            }
        }
    }
}

fn pair() -> (SecureStream, SecureStream) {
    let key = [11u8; 32];
    (
        SecureStream::new(key, [1, 1, 1, 1], [2, 2, 2, 2]).ok().unwrap(),
        SecureStream::new(key, [2, 2, 2, 2], [1, 1, 1, 1]).ok().unwrap(),
    )
}

#[test]
fn what_is_written_is_read() {
    for at_once in 1..=HEADER_LEN {
        let (mut a, mut b) = pair();
        for message in [&b""[..], &b"bir"[..], &[7u8; 5000][..]] {
            let frame = a.write_frame(message).unwrap();
            assert!(b.can_read());
            assert_eq!(read_one(&mut b, &frame, at_once), Ok(Some(message.to_vec())));
            let back = b.write_frame(message).unwrap();
            assert_eq!(read_one(&mut a, &back, at_once), Ok(Some(message.to_vec())));
        }
    }
}

#[test]
fn the_largest_piece_of_a_file_fits() {
    let (mut a, mut b) = pair();
    let piece = vec![3u8; CHUNK_SIZE];
    let frame = a.write_frame(&piece).unwrap();
    assert_eq!(frame.len(), HEADER_LEN + CHUNK_SIZE + 16);
    assert_eq!(read_one(&mut b, &frame, 4), Ok(Some(piece)));
}

#[test]
fn a_closed_connection_has_no_frame() {
    let (_, mut b) = pair();
    assert_eq!(read_one(&mut b, &[], 4), Ok(None));
}

#[test]
fn frames_that_are_too_long_are_refused() {
    let (_, mut b) = pair();
    let header = (MAX_FRAME_LEN as u32 + 1).to_be_bytes();
    assert_eq!(read_one(&mut b, &header, 4), Err(FrameError::TooLong));
    let header = (MAX_FRAME_LEN as u32).to_be_bytes();
    match b.read_frame(FrameState::Start, &header) {
        Ok(FrameStep::Need(FrameState::Body(n), m)) => {
            assert_eq!((n, m), (MAX_FRAME_LEN, MAX_FRAME_LEN))
        }
        _ => panic!("the body is to be read"),
    }
    assert_eq!(FrameError::TooLong.message(), "çerçeve boyutu sınırı aşıldı");
}

#[test]
fn damaged_or_repeated_frames_are_refused() {
    let (mut a, mut b) = pair();
    let mut frame = a.write_frame(b"gizli").unwrap();
    let good = frame.clone();
    let last = frame.len() - 1;
    frame[last] ^= 1;
    assert_eq!(read_one(&mut b, &frame, 4), Err(FrameError::Decryption));

    let (_, mut b) = pair();
    assert_eq!(read_one(&mut b, &good, 4), Ok(Some(b"gizli".to_vec())));
    assert_eq!(read_one(&mut b, &good, 4), Err(FrameError::Decryption));

    let (_, mut b) = pair();
    let mut short = 3u32.to_be_bytes().to_vec();
    short.extend_from_slice(&[1, 2, 3]);
    assert_eq!(read_one(&mut b, &short, 4), Err(FrameError::Decryption));
    assert_eq!(
        FrameError::Decryption.message(),
        "şifre çözme başarısız — bağlantı bozulmuş veya bütünlük ihlali"
    );
    assert_eq!(FrameError::Encryption.message(), "şifreleme hatası");
}

#[test]
fn both_sides_come_to_one_channel() {
    let mut a = Handshake::new(Role::Initiator, [5; 32], [1, 2, 3, 4]);
    let mut b = Handshake::new(Role::Responder, [6; 32], [5, 6, 7, 8]);
    let mut sizes = Vec::new();
    loop {
        match (a.next(), b.next()) {
            (HandshakeAction::Send(bytes), HandshakeAction::Receive(n)) => {
                assert_eq!(bytes.len(), n);
                sizes.push(n);
                a = a.advance(&[]);
                b = b.advance(&bytes);
            }
            (HandshakeAction::Receive(n), HandshakeAction::Send(bytes)) => {
                assert_eq!(bytes.len(), n);
                sizes.push(n);
                b = b.advance(&[]);
                a = a.advance(&bytes);
            }
            (HandshakeAction::Finish, HandshakeAction::Finish) => break,
            _ => panic!("one side waits for the other"),
        }
    }
    assert_eq!(sizes, vec![32, 32, 4, 4]);
    let mut a = a.finish().ok().unwrap();
    let mut b = b.finish().ok().unwrap();
    let frame = a.write_frame(b"selam").unwrap();
    assert_eq!(read_one(&mut b, &frame, 2), Ok(Some(b"selam".to_vec())));

    let key = agree([5; 32], public_key([6; 32]));
    let mut direct = SecureStream::new(key, [1, 2, 3, 4], [5, 6, 7, 8]).ok().unwrap();
    assert_eq!(direct.write_frame(b"selam").unwrap(), frame);
}

#[test]
fn the_initiator_sends_its_public_key_first() {
    let a = Handshake::new(Role::Initiator, [5; 32], [1, 2, 3, 4]);
    match a.next() {
        HandshakeAction::Send(bytes) => assert_eq!(bytes, public_key([5; 32]).to_vec()),
        _ => panic!("the initiator sends first"),
    }
    let a = a.advance(&[]).advance(&[9; 32]);
    match a.next() {
        HandshakeAction::Send(bytes) => assert_eq!(bytes, vec![1, 2, 3, 4]),
        _ => panic!("the salt comes after the keys"),
    }
}

#[test]
fn fresh_handshakes_differ() {
    let a = SecureStream::handshake_initiator().unwrap();
    let b = SecureStream::handshake_initiator().unwrap();
    match (a.next(), b.next()) {
        (HandshakeAction::Send(x), HandshakeAction::Send(y)) => assert_ne!(x, y),
        _ => panic!("the initiator sends first"),
    }
    match SecureStream::handshake_responder().unwrap().next() {
        HandshakeAction::Receive(n) => assert_eq!(n, 32),
        _ => panic!("the responder receives first"),
    }
}

#[test]
fn identifiers_are_random_uuids() {
    assert_eq!(id_of([0; 16]), "00000000-0000-4000-8000-000000000000");
    assert_eq!(id_of([255; 16]), "ffffffff-ffff-4fff-bfff-ffffffffffff");
    let bytes: [u8; 16] = [
        0x01, 0x23, 0x45, 0x67, 0x89, 0xab, 0xcd, 0xef, 0xfe, 0xdc, 0xba, 0x98, 0x76, 0x54, 0x32, 0x10,
    ];
    assert_eq!(id_of(bytes), "01234567-89ab-4def-bedc-ba9876543210");
    let a = new_id().unwrap();
    let b = new_id().unwrap();
    assert_ne!(a, b);
    assert_eq!(a.len(), 36);
    assert_eq!(uuid::Uuid::parse_str(&a).unwrap().get_version_num(), 4);
}

#[test]
fn what_is_drawn_decides() {
    let none = CryptoError::NoRandomness;
    assert_eq!(drawn(Ok([1u8, 2, 3, 4])), Ok([1, 2, 3, 4]));
    assert_eq!(drawn::<4>(Err(rand::Error::new("none"))), Err(none));
    assert_eq!(keypair_of(Ok([8; 32])), Ok(([8; 32], public_key([8; 32]))));
    assert_eq!(keypair_of(Err(none)), Err(none));
    assert_eq!(id_of_drawn(Ok([0; 16])), Ok(id_of([0; 16])));
    assert_eq!(id_of_drawn(Err(none)), Err(none));
}

#[test]
fn a_handshake_needs_keys_and_a_salt() {
    let none = CryptoError::NoRandomness;
    let pair = keypair_of(Ok([5; 32]));
    match handshake_of(Role::Initiator, pair, Ok([1, 2, 3, 4])) {
        Ok(h) => match h.next() {
            HandshakeAction::Send(bytes) => assert_eq!(bytes, public_key([5; 32]).to_vec()),
            _ => panic!("the initiator sends first"),
        },
        Err(_) => panic!("both were drawn"),
    }
    assert_eq!(handshake_of(Role::Initiator, Err(none), Ok([0; 4])).err(), Some(none));
    assert_eq!(handshake_of(Role::Responder, pair, Err(none)).err(), Some(none));
}

#[test]
fn equal_salts_make_no_channel() {
    assert_eq!(
        SecureStream::new([1; 32], [7; 4], [7; 4]).err(),
        Some(ChannelError::EqualSalts)
    );
    let a = Handshake::new(Role::Initiator, [5; 32], [1, 2, 3, 4]);
    let a = a.advance(&[]).advance(&public_key([6; 32])).advance(&[]);
    let echoed = a.advance(&[1, 2, 3, 4]);
    assert!(matches!(echoed.next(), HandshakeAction::Finish));
    assert_eq!(echoed.finish().err(), Some(ChannelError::EqualSalts));
    assert_eq!(ChannelError::EqualSalts.message(), "iki yönün oturum tuzu aynı");
}
