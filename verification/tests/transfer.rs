use std::collections::HashMap;
use verishare::channel::CHUNK_SIZE;
use verishare::digest::{hash_prefix, FileDigest};
use verishare::effects::{Direction, Effect};
use verishare::incoming::{Incoming, IncomingAction, ReceiveError};
use verishare::outgoing::{FileList, Outgoing, OutgoingAction, SendError};
use verishare::protocol::{TransferProtocol, REQUEST_TIMEOUT_SECS, TRANSFER_PORT};
use verishare::shell::Platform;

fn shown(effects: &[Effect]) -> Vec<String> {
    effects.iter().map(|e| format!("{:?}", e)).collect()
}

fn request(total_size: u64, total_files: u32) -> TransferProtocol {
    TransferProtocol::TransferRequest { total_size, total_files, id: "t1".to_string() }
}

fn offset_request(rel_path: &str, file_size: u64) -> TransferProtocol {
    TransferProtocol::FileOffsetRequest { rel_path: rel_path.to_string(), file_size }
}

fn checksum_of(bytes: &[u8]) -> TransferProtocol {
    TransferProtocol::FileChecksum {
        checksum: verishare::digest::hex_digest(FileDigest::new().with(bytes)),
    }
}

fn accepted(total_size: u64, total_files: u32) -> Incoming {
    let r = Incoming::new(Platform::Linux, "/indirilenler".to_string(), 0);
    let (r, _) = r.message(request(total_size, total_files), 0);
    r.answer(Some(true)).0
}

#[test]
fn the_numbers_of_the_protocol() {
    assert_eq!(TRANSFER_PORT, 53318);
    assert_eq!(REQUEST_TIMEOUT_SECS, 60);
    assert_eq!(CHUNK_SIZE, 4 * 1024 * 1024);
}

#[test]
fn a_request_is_put_to_the_user() {
    let r = Incoming::new(Platform::Linux, "/indirilenler".to_string(), 0);
    assert!(matches!(r.next(), IncomingAction::ReadMessage));
    let (r, effects) = r.message(request(1536, 2), 9);
    assert!(matches!(r.next(), IncomingAction::AskUser));
    assert_eq!(effects.len(), 5);
    assert!(matches!(&effects[0], Effect::Register { id } if id == "t1"));
    assert!(matches!(&effects[1], Effect::Await { id } if id == "t1"));
    assert!(matches!(&effects[2], Effect::ShowWindow));
    match &effects[3] {
        Effect::Notify { title, body } => {
            assert_eq!(title, "VeriShare — Gelen İstek");
            assert_eq!(body, "2 dosya (1.5 KB) göndermek istiyor. Kabul ediyor musunuz?");
        }
        _ => panic!("a notification"),
    }
    assert!(matches!(
        &effects[4],
        Effect::Request { id, total_size: 1536, total_files: 2 } if id == "t1"
    ));

    let (r, effects) = r.answer(Some(true));
    assert!(matches!(r.next(), IncomingAction::ReadMessage));
    assert_eq!(effects.len(), 2);
    assert!(matches!(&effects[0], Effect::Send(TransferProtocol::TransferAccepted)));
    assert!(matches!(
        &effects[1],
        Effect::Initiated { id, text, dir: Direction::In } if id == "t1" && text == "2 adet içerik"
    ));
}

#[test]
fn a_request_that_is_declined_ends_the_connection() {
    let (r, _) = Incoming::new(Platform::Linux, "/d".to_string(), 0).message(request(1, 1), 0);
    let (r, effects) = r.answer(Some(false));
    assert!(matches!(r.next(), IncomingAction::Stop));
    assert_eq!(effects.len(), 2);
    assert!(matches!(&effects[0], Effect::Send(TransferProtocol::TransferDeclined)));
    assert!(matches!(&effects[1], Effect::Unregister { id } if id == "t1"));
}

#[test]
fn a_request_without_an_answer_is_declined() {
    let (r, _) = Incoming::new(Platform::Linux, "/d".to_string(), 0).message(request(1, 1), 0);
    let (r, effects) = r.answer(None);
    assert!(matches!(r.next(), IncomingAction::Stop));
    assert_eq!(effects.len(), 4);
    assert!(matches!(&effects[0], Effect::Forget { id } if id == "t1"));
    assert!(matches!(&effects[1], Effect::Expired { id } if id == "t1"));
    assert!(matches!(&effects[2], Effect::Send(TransferProtocol::TransferDeclined)));
    assert!(matches!(&effects[3], Effect::Unregister { id } if id == "t1"));
}

fn opened(r: Incoming, rel_path: &str, size: u64) -> Incoming {
    let (r, effects) = r.message(offset_request(rel_path, size), 0);
    assert!(effects.is_empty());
    let name = match r.next() {
        IncomingAction::Locate(parts) => parts.last().cloned().unwrap_or_default(),
        _ => panic!("the way to the file"),
    };
    let r = r.located();
    assert!(matches!(r.next(), IncomingAction::Probe(n) if n == name));
    let (r, effects) = r.probed(None);
    assert!(matches!(
        &effects[0],
        Effect::Send(TransferProtocol::FileOffsetResponse { offset: 0 })
    ));
    assert!(matches!(r.next(), IncomingAction::Open(n, 0) if n == name));
    r.opened(format!("/indirilenler/{}", name))
}

#[test]
fn a_file_is_received_and_checked() {
    let r = opened(accepted(10, 1), "a.txt", 10);
    assert!(matches!(r.next(), IncomingAction::ReadChunk(true)));
    assert!(r.has_room(10) && r.can_cover(10));
    let (r, effects) = r.chunk(b"01234", 1);
    match &effects[0] {
        Effect::Progress { dir, id, text, tick, path } => {
            assert_eq!((*dir, id.as_str(), text.as_str()), (Direction::In, "t1", "1 adet içerik"));
            assert_eq!((tick.pct, tick.is_done, tick.bytes_since, tick.elapsed), (50, false, 5, 1));
            assert_eq!(*path, None);
        }
        _ => panic!("progress"),
    }
    let (r, effects) = r.chunk(b"56789", 2);
    match &effects[0] {
        Effect::Progress { tick, path, .. } => {
            assert_eq!((tick.pct, tick.is_done), (100, true));
            assert_eq!(path.as_deref(), Some("/indirilenler/a.txt"));
        }
        _ => panic!("progress"),
    }
    assert!(matches!(r.next(), IncomingAction::ReadChecksum));
    let (r, effects) = r.checksum(Some(checksum_of(b"0123456789")));
    assert!(effects.is_empty());
    let (r, effects) = r.message(TransferProtocol::AllDone, 3);
    assert!(matches!(r.next(), IncomingAction::Stop));
    assert_eq!(effects.len(), 2);
    assert!(matches!(&effects[0], Effect::Unregister { id } if id == "t1"));
    assert!(matches!(
        &effects[1],
        Effect::Notify { title, body } if title == "VeriShare" && body == "1 adet içerik indirildi!"
    ));
}

#[test]
fn a_file_that_differs_brings_a_warning() {
    let r = opened(accepted(4, 2), "klasör/b.bin", 4);
    let (r, effects) = r.chunk(b"abcd", 1);
    match &effects[0] {
        Effect::Progress { path, .. } => assert_eq!(path.as_deref(), Some("/indirilenler")),
        _ => panic!("progress"),
    }
    let (r, effects) = r.checksum(Some(checksum_of(b"abcx")));
    assert_eq!(effects.len(), 1);
    assert!(matches!(
        &effects[0],
        Effect::Warning { id, file } if id == "t1" && file == "klasör/b.bin"
    ));
    let (_, effects) = r.message(TransferProtocol::AllDone, 3);
    assert!(matches!(
        effects.last(),
        Some(Effect::Notify { body, .. })
            if body == "2 adet içerik indirildi (bazı dosyalarda bütünlük uyarısı var)"
    ));
}

#[test]
fn what_is_no_checksum_is_passed_over() {
    for message in [None, Some(TransferProtocol::AllDone), Some(checksum_of(b"ab"))] {
        let r = opened(accepted(2, 1), "c", 2);
        let (r, _) = r.chunk(b"ab", 1);
        let (r, effects) = r.checksum(message);
        assert!(effects.is_empty());
        assert!(matches!(r.next(), IncomingAction::ReadMessage));
    }
}

#[test]
fn a_broken_file_goes_on_with_its_next_piece() {
    let (r, _) = accepted(10, 1).message(offset_request("a.txt", 10), 0);
    let (r, effects) = r.located().probed(Some(4));
    assert!(effects.is_empty());
    assert!(matches!(r.next(), IncomingAction::HashPrefix(n, 4) if n == "a.txt"));
    assert!(r.has_room(4));
    let (r, effects) = r.prefix(Some(FileDigest::new().with(b"0123")));
    assert!(matches!(
        &effects[0],
        Effect::Send(TransferProtocol::FileOffsetResponse { offset: 4 })
    ));
    assert!(matches!(r.next(), IncomingAction::Open(n, 4) if n == "a.txt"));
    let r = r.opened("/indirilenler/a.txt".to_string());
    let (r, effects) = r.chunk(b"456789", 1);
    assert!(matches!(&effects[0], Effect::Progress { tick, .. } if tick.pct == 100));
    let (_, effects) = r.checksum(Some(checksum_of(b"0123456789")));
    assert!(effects.is_empty());
}

#[test]
fn a_prefix_that_cannot_be_read_shows_in_the_checksum() {
    let (r, _) = accepted(6, 1).message(offset_request("a", 6), 0);
    let (r, _) = r.located().probed(Some(3));
    let (r, _) = r.prefix(None);
    let (r, _) = r.opened("/indirilenler/a".to_string()).chunk(b"def", 1);
    let (_, effects) = r.checksum(Some(checksum_of(b"abcdef")));
    assert!(matches!(&effects[0], Effect::Warning { .. }));
}

#[test]
fn another_file_of_the_name_is_left_alone() {
    let (r, _) = accepted(3, 1).message(offset_request("x/a.txt", 3), 0);
    assert!(matches!(r.next(), IncomingAction::Locate(p) if p == vec!["x", "a.txt"]));
    let r = r.located();
    let (r, _) = r.probed(Some(3));
    let (r, _) = r.probed(Some(3));
    assert!(matches!(r.next(), IncomingAction::Probe(n) if n == "a (1).txt"));
    let (r, effects) = r.probed(None);
    assert!(matches!(
        &effects[0],
        Effect::Send(TransferProtocol::FileOffsetResponse { offset: 0 })
    ));
    assert!(matches!(r.next(), IncomingAction::Open(n, 0) if n == "a (1).txt"));
}

#[test]
fn an_empty_file_waits_for_its_checksum() {
    let r = opened(accepted(0, 1), "bos", 0);
    assert!(matches!(r.next(), IncomingAction::ReadChecksum));
    let (r, effects) = r.checksum(Some(checksum_of(b"")));
    assert!(effects.is_empty());
    let (_, effects) = r.message(TransferProtocol::AllDone, 0);
    match &effects[1] {
        Effect::Complete { id, text, destination } => {
            assert_eq!((id.as_str(), text.as_str()), ("t1", "1 adet içerik"));
            assert_eq!(destination, "/indirilenler/bos");
        }
        _ => panic!("the end is told"),
    }
}

#[test]
fn the_end_is_told_where_it_was_not() {
    let r = opened(accepted(100, 1), "a", 1);
    let (r, _) = r.chunk(b"x", 1);
    let (r, _) = r.checksum(None);
    let (_, effects) = r.message(TransferProtocol::AllDone, 2);
    assert!(matches!(
        &effects[1],
        Effect::Complete { destination, .. } if destination == "/indirilenler/a"
    ));

    let (_, effects) = accepted(100, 3).message(TransferProtocol::AllDone, 2);
    assert!(matches!(
        &effects[1],
        Effect::Complete { destination, .. } if destination == "/indirilenler"
    ));

    let (_, effects) = Incoming::new(Platform::Linux, "/d".to_string(), 0).message(TransferProtocol::AllDone, 0);
    assert_eq!(effects.len(), 2);
    assert!(matches!(&effects[0], Effect::Complete { id, .. } if id.is_empty()));
    assert!(matches!(&effects[1], Effect::Notify { body, .. } if body == " indirildi!"));
}

#[test]
fn a_cancelled_transfer_stops_where_it_is() {
    let r = opened(accepted(10, 1), "a", 10);
    let (r, _) = r.chunk(b"xxx", 1);
    let (r, effects) = r.cancelled();
    assert!(matches!(r.next(), IncomingAction::Stop));
    assert_eq!(effects.len(), 1);
    match &effects[0] {
        Effect::Cancelled { dir, id, pct, text } => assert_eq!(
            (*dir, id.as_str(), *pct, text.as_str()),
            (Direction::In, "t1", 30, "1 adet içerik")
        ),
        _ => panic!("cancelled"),
    }
}

fn failure_of(effects: &[Effect]) -> Option<&str> {
    match effects {
        [] => None,
        [Effect::Failed { id, error }] if id == "t1" => Some(error),
        _ => panic!("a failure or nothing"),
    }
}

#[test]
fn a_transfer_that_is_cut_off_is_shown_as_failed() {
    let closed = Some("Bağlantı beklenmedik şekilde kapandı.");
    let (r, effects) = opened(accepted(10, 1), "a", 10).broken();
    assert!(matches!(r.next(), IncomingAction::Stop));
    assert_eq!(failure_of(&effects), closed);

    let (r, effects) = accepted(10, 1).closed();
    assert!(matches!(r.next(), IncomingAction::Stop));
    assert_eq!(failure_of(&effects), closed);

    let (r, _) = opened(accepted(10, 2), "a", 4).chunk(b"abcd", 1);
    let (r, _) = r.checksum(None);
    assert_eq!(failure_of(&r.closed().1), closed);

    let (r, _) = opened(accepted(4, 1), "a", 4).chunk(b"abcd", 1);
    let (r, _) = r.checksum(None);
    assert_eq!(failure_of(&r.closed().1), None);

    let (r, effects) = Incoming::new(Platform::Linux, "/d".to_string(), 0).closed();
    assert!(matches!(r.next(), IncomingAction::Stop));
    assert!(effects.is_empty());
    assert!(opened(Incoming::new(Platform::Linux, "/d".to_string(), 0), "a", 5).broken().1.is_empty());
}

#[test]
fn a_file_without_a_way_or_a_place_is_refused() {
    let (r, effects) = accepted(1, 1).message(offset_request("../.. /", 1), 0);
    assert!(matches!(r.next(), IncomingAction::Stop));
    assert_eq!(failure_of(&effects), Some("Geçersiz dosya yolu."));

    let r = Incoming::new(Platform::Windows, "C:\\d".to_string(), 0);
    let (r, effects) = r.message(offset_request("..\\ C:", 1), 0);
    assert!(matches!(r.next(), IncomingAction::Stop));
    assert!(effects.is_empty());

    let (r, _) = accepted(1, 1).message(offset_request("a", 1), 0);
    let mut r = r.located();
    let mut effects = Vec::new();
    while let IncomingAction::Probe(_) = r.next() {
        (r, effects) = r.probed(Some(1));
    }
    assert!(matches!(r.next(), IncomingAction::Stop));
    assert_eq!(failure_of(&effects), Some("Dosya için boş bir ad bulunamadı."));
    assert_eq!(ReceiveError::Closed.message(), "Bağlantı beklenmedik şekilde kapandı.");
}

#[test]
fn the_end_is_told_where_more_came_than_was_announced() {
    let (r, effects) = opened(accepted(1, 1), "a", 3).chunk(b"abc", 1);
    assert!(matches!(&effects[0], Effect::Progress { tick, .. } if tick.pct == 300 && !tick.is_done));
    let (r, _) = r.checksum(None);
    let (_, effects) = r.message(TransferProtocol::AllDone, 2);
    assert!(matches!(
        &effects[1],
        Effect::Complete { destination, .. } if destination == "/indirilenler/a"
    ));
}

#[test]
fn messages_out_of_place_are_passed_over() {
    let mut r = accepted(1, 1);
    for message in [
        TransferProtocol::TransferAccepted,
        TransferProtocol::TransferDeclined,
        TransferProtocol::FileOffsetResponse { offset: 3 },
        checksum_of(b""),
    ] {
        let (next, effects) = r.message(message, 0);
        assert!(effects.is_empty());
        assert!(matches!(next.next(), IncomingAction::ReadMessage));
        r = next;
    }
}

#[test]
fn a_file_without_a_request_cannot_be_cancelled() {
    let r = opened(Incoming::new(Platform::Linux, "/d".to_string(), 0), "a", 5);
    assert!(matches!(r.next(), IncomingAction::ReadChunk(false)));
}

#[test]
fn a_failure_is_shown_once_a_request_has_come() {
    let r = Incoming::new(Platform::Linux, "/d".to_string(), 0);
    assert!(r.failure("hata".to_string()).is_none());
    assert!(matches!(
        accepted(1, 1).failure("hata".to_string()),
        Some(Effect::Failed { id, error }) if id == "t1" && error == "hata"
    ));
}

fn list(files: &[(&str, Option<u64>)]) -> FileList {
    let mut l = FileList::new();
    for (name, len) in files {
        assert!(l.has_room(len.unwrap_or(0)));
        l.add(name.to_string(), *len);
    }
    l
}

#[test]
fn a_transfer_begins_with_its_request() {
    let (s, effects) = Outgoing::start("t".to_string(), list(&[("a", Some(3)), ("b/c", None), ("d", Some(4))]), 0);
    assert_eq!(s.next(), OutgoingAction::ReadResponse);
    assert_eq!(effects.len(), 3);
    assert!(matches!(&effects[0], Effect::Register { id } if id == "t"));
    assert!(matches!(
        &effects[1],
        Effect::Initiated { id, text, dir: Direction::Out } if id == "t" && text == "3 dosya/klasör"
    ));
    assert!(matches!(
        &effects[2],
        Effect::Send(TransferProtocol::TransferRequest { total_size: 7, total_files: 3, id }) if id == "t"
    ));

    let (_, effects) = Outgoing::start("t".to_string(), list(&[("tek.txt", Some(3))]), 0);
    assert!(matches!(&effects[1], Effect::Initiated { text, .. } if text == "tek.txt"));
    let (_, effects) = Outgoing::start("t".to_string(), list(&[]), 0);
    assert!(matches!(&effects[1], Effect::Initiated { text, .. } if text == "0 dosya/klasör"));
    assert!(!list(&[("a", Some(u64::MAX))]).has_room(1));
}

fn started(files: &[(&str, Option<u64>)]) -> Outgoing {
    Outgoing::start("t".to_string(), list(files), 0).0
}

#[test]
fn the_answer_decides() {
    let one = [("a", Some(3))];
    let (s, effects) = started(&one).response(Some(TransferProtocol::TransferAccepted), 1);
    assert_eq!(s.next(), OutgoingAction::Measure(0));
    assert_eq!(effects.len(), 1);
    assert!(matches!(&effects[0], Effect::Assigned { id } if id == "t"));

    let (s, effects) = started(&one).response(Some(TransferProtocol::TransferDeclined), 1);
    assert_eq!(s.next(), OutgoingAction::Fail(SendError::Declined));
    assert_eq!(shown(&effects), vec!["Unregister { id: \"t\" }"]);

    let (s, effects) = started(&one).response(Some(TransferProtocol::AllDone), 1);
    assert_eq!(s.next(), OutgoingAction::Fail(SendError::UnknownAnswer));
    assert_eq!(shown(&effects), vec!["Unregister { id: \"t\" }"]);

    let (s, effects) = started(&one).response(None, 1);
    assert_eq!(s.next(), OutgoingAction::Fail(SendError::ClosedUnanswered));
    assert!(effects.is_empty());

    let (s, effects) = started(&one).cancelled();
    assert_eq!(s.next(), OutgoingAction::Fail(SendError::Cancelled));
    assert_eq!(shown(&effects), vec!["Unregister { id: \"t\" }"]);

    let (s, effects) = started(&[]).response(Some(TransferProtocol::TransferAccepted), 1);
    assert_eq!(s.next(), OutgoingAction::Stop);
    assert_eq!(
        shown(&effects),
        vec!["Assigned { id: \"t\" }", "Send(AllDone)", "Unregister { id: \"t\" }"]
    );
}

#[test]
fn failures_have_their_messages() {
    assert_eq!(SendError::Cancelled.message(), "İPTAL_EDİLDİ");
    assert_eq!(SendError::Declined.message(), "ERİŞİM_REDDEDİLDİ");
    assert_eq!(SendError::UnknownAnswer.message(), "Bilinmeyen yanıt.");
    assert_eq!(SendError::ClosedUnanswered.message(), "Bağlantı beklenmedik şekilde kapandı.");
    assert_eq!(SendError::Closed.message(), "Bağlantı kapandı.");
}

fn asked(size: u64) -> Outgoing {
    let (s, _) = started(&[("a", Some(size))]).response(Some(TransferProtocol::TransferAccepted), 0);
    let (s, effects) = s.measured(size);
    assert!(matches!(
        &effects[0],
        Effect::Send(TransferProtocol::FileOffsetRequest { rel_path, file_size })
            if rel_path == "a" && *file_size == size
    ));
    assert_eq!(s.next(), OutgoingAction::ReadOffset);
    s
}

#[test]
fn the_receiver_says_where_to_begin() {
    let s = asked(10).offset(Some(TransferProtocol::FileOffsetResponse { offset: 4 }));
    assert_eq!(s.next(), OutgoingAction::HashPrefix(0, 4));
    let s = s.prefix(Some(FileDigest::new().with(b"0123")));
    assert_eq!(s.next(), OutgoingAction::Open(0, 4));
    let s = asked(10).offset(Some(TransferProtocol::FileOffsetResponse { offset: 99 }));
    assert_eq!(s.next(), OutgoingAction::HashPrefix(0, 10));
    let s = asked(10).offset(Some(TransferProtocol::FileOffsetResponse { offset: 0 }));
    assert_eq!(s.next(), OutgoingAction::Open(0, 0));
    let s = asked(10).offset(Some(TransferProtocol::AllDone));
    assert_eq!(s.next(), OutgoingAction::Open(0, 0));
    let s = asked(10).offset(None);
    assert_eq!(s.next(), OutgoingAction::Fail(SendError::Closed));
}

#[test]
fn a_file_is_sent_and_summed_up() {
    let s = asked(6).offset(Some(TransferProtocol::FileOffsetResponse { offset: 2 }));
    let s = s.prefix(Some(FileDigest::new().with(b"ab"))).opened();
    assert_eq!(s.next(), OutgoingAction::SendPiece(CHUNK_SIZE));
    assert!(s.has_room(4) && s.can_cover(4));
    let (s, effects) = s.piece(b"cd", 1);
    match &effects[0] {
        Effect::Progress { dir, id, text, tick, path } => {
            assert_eq!((*dir, id.as_str(), text.as_str()), (Direction::Out, "t", "a"));
            assert_eq!((tick.pct, tick.is_done, tick.bytes_since), (66, false, 4));
            assert_eq!(*path, None);
        }
        _ => panic!("progress"),
    }
    let (s, effects) = s.piece(b"ef", 2);
    assert!(matches!(&effects[0], Effect::Progress { tick, .. } if tick.is_done && tick.pct == 100));
    let (s, effects) = s.piece(b"", 3);
    assert_eq!(s.next(), OutgoingAction::Stop);
    assert_eq!(
        shown(&effects),
        vec![
            format!("Send({:?})", checksum_of(b"abcdef")),
            "Send(AllDone)".to_string(),
            "Unregister { id: \"t\" }".to_string(),
        ]
    );
}

#[test]
fn a_transfer_that_is_cancelled_underway_says_how_far_it_came() {
    let s = asked(4).offset(Some(TransferProtocol::FileOffsetResponse { offset: 0 })).opened();
    let (s, _) = s.piece(b"a", 1);
    let (s, effects) = s.cancelled();
    assert_eq!(s.next(), OutgoingAction::Fail(SendError::Cancelled));
    assert_eq!(effects.len(), 2);
    assert!(matches!(&effects[0], Effect::Unregister { id } if id == "t"));
    match &effects[1] {
        Effect::Cancelled { dir, id, pct, text } => {
            assert_eq!((*dir, id.as_str(), *pct, text.as_str()), (Direction::Out, "t", 25, "a"))
        }
        _ => panic!("cancelled"),
    }
}

#[test]
fn files_follow_each_other() {
    let files = [("a", Some(0)), ("b", Some(0))];
    let (s, _) = started(&files).response(Some(TransferProtocol::TransferAccepted), 0);
    let (s, _) = s.measured(0);
    let (s, effects) = s
        .offset(Some(TransferProtocol::FileOffsetResponse { offset: 0 }))
        .opened()
        .piece(b"", 0);
    assert_eq!(effects.len(), 1);
    assert_eq!(s.next(), OutgoingAction::Measure(1));
    let (_, effects) = s.measured(0);
    assert!(matches!(
        &effects[0],
        Effect::Send(TransferProtocol::FileOffsetRequest { rel_path, .. }) if rel_path == "b"
    ));
}

fn hashed(bytes: &[u8], len: u64) -> FileDigest {
    let mut h = hash_prefix(len);
    let mut at = 0;
    while let Some(n) = h.next_read() {
        let end = (at + n).min(bytes.len());
        h = h.take(&bytes[at..end]);
        at = end;
    }
    h.finish()
}

fn sent(effects: Vec<Effect>) -> Vec<TransferProtocol> {
    let mut messages = Vec::new();
    for e in effects {
        if let Effect::Send(m) = e {
            messages.push(m);
        }
    }
    messages
}

/// Runs a whole transfer between the two sides, and gives what the receiver has
/// in the end, how many bytes of files went over, and how many warnings came.
fn run(
    files: &[(&str, Vec<u8>)],
    mut disk: HashMap<String, Vec<u8>>,
    piece: usize,
) -> (HashMap<String, Vec<u8>>, usize, usize) {
    let mut l = FileList::new();
    for (name, bytes) in files {
        l.add(name.to_string(), Some(bytes.len() as u64));
    }
    let (mut s, effects) = Outgoing::start("t".to_string(), l, 0);
    let mut to_receiver: Vec<TransferProtocol> = sent(effects);
    let mut r = Incoming::new(Platform::Linux, "/d".to_string(), 0);
    let mut warnings = 0;
    let mut bytes_sent = 0;

    let (next, _) = r.message(to_receiver.remove(0), 0);
    let (next, effects) = next.answer(Some(true));
    r = next;
    let (next, effects) = s.response(sent(effects).pop(), 0);
    s = next;
    assert!(sent(effects).is_empty() || files.is_empty());

    let mut folder = String::new();
    loop {
        match s.next() {
            OutgoingAction::Measure(i) => {
                let (next, effects) = s.measured(files[i].1.len() as u64);
                s = next;
                let (next, _) = r.message(sent(effects).remove(0), 0);
                r = next;
                let mut answer = Vec::new();
                while answer.is_empty() {
                    match r.next() {
                        IncomingAction::Locate(mut parts) => {
                            assert!(parts.pop().is_some());
                            folder = parts.iter().map(|p| format!("{}/", p)).collect();
                            r = r.located();
                        }
                        IncomingAction::Probe(name) => {
                            let path = format!("{}{}", folder, name);
                            let (next, effects) = r.probed(disk.get(&path).map(|f| f.len() as u64));
                            r = next;
                            answer = sent(effects);
                        }
                        IncomingAction::HashPrefix(name, len) => {
                            let path = format!("{}{}", folder, name);
                            let (next, effects) = r.prefix(Some(hashed(&disk[&path], len)));
                            r = next;
                            answer = sent(effects);
                        }
                        _ => panic!("the receiver finds the place of the file"),
                    }
                }
                s = s.offset(answer.pop());
            }
            OutgoingAction::HashPrefix(i, len) => s = s.prefix(Some(hashed(&files[i].1, len))),
            OutgoingAction::Open(i, from) => {
                s = s.opened();
                let path = match r.next() {
                    IncomingAction::Open(name, at) => {
                        assert_eq!(at, from);
                        format!("{}{}", folder, name)
                    }
                    _ => panic!("the receiver opens the file"),
                };
                r = r.opened(path.clone());
                let file = disk.entry(path).or_default();
                file.truncate(from as usize);
                let mut at = from as usize;
                loop {
                    let end = (at + piece).min(files[i].1.len());
                    let chunk = &files[i].1[at..end];
                    at = end;
                    let (next, effects) = s.piece(chunk, 1);
                    s = next;
                    if chunk.is_empty() {
                        let mut messages = sent(effects);
                        let (next, effects) = r.checksum(Some(messages.remove(0)));
                        r = next;
                        warnings += effects.len();
                        to_receiver = messages;
                        break;
                    }
                    bytes_sent += chunk.len();
                    file.extend_from_slice(chunk);
                    assert!(matches!(r.next(), IncomingAction::ReadChunk(true)));
                    let (next, _) = r.chunk(chunk, 1);
                    r = next;
                }
            }
            OutgoingAction::Stop => break,
            _ => panic!("the transfer goes on"),
        }
    }
    if let Some(message) = to_receiver.pop() {
        let (next, _) = r.message(message, 2);
        r = next;
    }
    assert!(matches!(r.next(), IncomingAction::Stop) || files.is_empty());
    (disk, bytes_sent, warnings)
}

#[test]
fn files_arrive_as_they_were_sent() {
    let a: Vec<u8> = (0..1000).map(|i| (i % 256) as u8).collect();
    let files = [("a.bin", a.clone()), ("k/b", Vec::new()), ("../k/c", vec![1, 2, 3])];
    let (disk, n, warnings) = run(&files, HashMap::new(), 64);
    assert_eq!((n, warnings), (1003, 0));
    assert_eq!(disk["a.bin"], a);
    assert_eq!(disk["k/b"], Vec::<u8>::new());
    assert_eq!(disk["k/c"], vec![1, 2, 3]);
}

#[test]
fn a_transfer_that_broke_off_sends_the_rest_alone() {
    let a: Vec<u8> = (0..500).map(|i| (i % 251) as u8).collect();
    let mut disk = HashMap::new();
    disk.insert("a".to_string(), a[..300].to_vec());
    let (disk, n, warnings) = run(&[("a", a.clone())], disk, 70);
    assert_eq!((n, warnings), (200, 0));
    assert_eq!(disk["a"], a);
}

#[test]
fn the_rest_of_another_file_brings_a_warning() {
    let a: Vec<u8> = (0..500).map(|i| (i % 251) as u8).collect();
    let mut disk = HashMap::new();
    disk.insert("a".to_string(), vec![7; 300]);
    let (disk, n, warnings) = run(&[("a", a.clone())], disk, 500);
    assert_eq!((n, warnings), (200, 1));
    assert_eq!(disk["a"].len(), 500);
}

#[test]
fn names_that_differ_are_kept_apart() {
    let q = vec![1u8; 100];
    let a = vec![2u8; 500];
    let files = [("Q: foo.txt", q.clone()), ("A: foo.txt", a.clone()), ("C:", vec![3])];
    let mut disk = HashMap::new();
    disk.insert("foo.txt".to_string(), vec![9; 7]);
    let (disk, n, warnings) = run(&files, disk, 64);
    assert_eq!((n, warnings), (601, 0));
    assert_eq!(disk["foo.txt"], vec![9; 7]);
    assert_eq!(disk["Q: foo.txt"], q);
    assert_eq!(disk["A: foo.txt"], a);
    assert_eq!(disk["C:"], vec![3]);
}

#[test]
fn a_file_that_is_there_is_not_overwritten() {
    let mut disk = HashMap::new();
    disk.insert("a.txt".to_string(), b"eski".to_vec());
    let (disk, _, warnings) = run(&[("a.txt", b"yeni".to_vec())], disk, 3);
    assert_eq!(warnings, 0);
    assert_eq!(disk["a.txt"], b"eski");
    assert_eq!(disk["a (1).txt"], b"yeni");
    let (disk, _, _) = run(&[("a.txt", b"yeni".to_vec()), ("a.txt", b"iki".to_vec())], disk, 3);
    assert_eq!(disk["a (2).txt"], b"yeni");
    assert_eq!(disk["a (3).txt"], b"iki");
}
