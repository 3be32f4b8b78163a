//! What the two sides of a transfer come to together.

use crate::channel::CHUNK_SIZE;
use crate::digest::{checksum, hex_is_injective, sha256};
use crate::effects::EffectView;
use crate::incoming::{ReceiveError, Reception, ReceptionStage};
use crate::naming::{
    a_file_finds_its_place, existing, nth_name, parts_of, placed, questions, PlaceAt, Placement,
};
use crate::outgoing::{next_action, offset_said, OutgoingAction, SendError, Sending, SendingStage};
use crate::progress::{everything_is_one_hundred_percent, percent};
use crate::protocol::Message;
use crate::shell::Platform;
use vstd::prelude::*;

verus! {

/// The bytes of `pieces`, one after the other.
pub open spec fn joined(pieces: Seq<Seq<u8>>) -> Seq<u8>
    decreases pieces.len(),
{
    if pieces.len() == 0 {
        Seq::empty()
    } else {
        joined(pieces.drop_last()) + pieces.last()
    }
}

/// The pieces that a file is sent in: none of them is empty.
pub open spec fn are_pieces(pieces: Seq<Seq<u8>>) -> bool {
    forall|k: int| 0 <= k < pieces.len() ==> (#[trigger] pieces[k]).len() > 0
}

/// The side that sends, after it has sent `pieces`, piece `k` at `times[k]`.
pub open spec fn after_sending(s: Sending, pieces: Seq<Seq<u8>>, times: Seq<u64>) -> Sending
    decreases pieces.len(),
{
    if pieces.len() == 0 {
        s
    } else {
        let before = after_sending(s, pieces.drop_last(), times);
        before.after_piece(pieces.last(), times[pieces.len() - 1]).0
    }
}

/// The side that receives, after it has received `pieces`, piece `k` at `times[k]`.
pub open spec fn after_receiving(
    r: Reception,
    pieces: Seq<Seq<u8>>,
    times: Seq<u64>,
) -> Reception
    decreases pieces.len(),
{
    if pieces.len() == 0 {
        r
    } else {
        let before = after_receiving(r, pieces.drop_last(), times);
        before.after_chunk(pieces.last(), times[pieces.len() - 1]).0
    }
}

/// The first pieces are pieces too, and the last one is not empty.
proof fn first_pieces(pieces: Seq<Seq<u8>>)
    requires
        are_pieces(pieces),
        pieces.len() > 0,
    ensures
        are_pieces(pieces.drop_last()),
        pieces.last().len() > 0,
        joined(pieces).len() == joined(pieces.drop_last()).len() + pieces.last().len(),
{
    let init = pieces.drop_last();
    assert forall|k: int| 0 <= k < init.len() implies (#[trigger] init[k]).len() > 0 by {
        assert(init[k] == pieces[k]);
    }
    assert(pieces[pieces.len() - 1].len() > 0);
}

/// The digest of the side that sends covers what it covered, and every piece that
/// it has sent.
pub proof fn the_sender_covers_what_it_sends(
    s: Sending,
    pieces: Seq<Seq<u8>>,
    times: Seq<u64>,
)
    requires
        s.stage is Piece,
        are_pieces(pieces),
    ensures
        ({
            let end = after_sending(s, pieces, times);
            &&& end.stage == SendingStage::Piece {
                file: s.stage->Piece_file,
                covered: s.stage->Piece_covered + joined(pieces),
            }
            &&& end.id == s.id
            &&& end.names == s.names
        }),
    decreases pieces.len(),
{
    if pieces.len() == 0 {
        assert(s.stage->Piece_covered + joined(pieces) == s.stage->Piece_covered);
    } else {
        first_pieces(pieces);
        the_sender_covers_what_it_sends(s, pieces.drop_last(), times);
        assert(s.stage->Piece_covered + joined(pieces) == s.stage->Piece_covered + joined(
            pieces.drop_last(),
        ) + pieces.last());
    }
}

/// The side that receives goes on for as long as bytes of the file are to come,
/// and its digest covers what it covered, and every piece that it has received.
pub proof fn the_receiver_covers_what_it_receives(
    r: Reception,
    pieces: Seq<Seq<u8>>,
    times: Seq<u64>,
)
    requires
        r.stage is Chunk,
        r.stage->Chunk_remaining > 0,
        are_pieces(pieces),
        joined(pieces).len() <= r.stage->Chunk_remaining,
    ensures
        ({
            let rel_path = r.stage->Chunk_rel_path;
            let path = r.stage->Chunk_path;
            let covered = r.stage->Chunk_covered + joined(pieces);
            let remaining = (r.stage->Chunk_remaining - joined(pieces).len()) as u64;
            let end = after_receiving(r, pieces, times);
            &&& end.platform == r.platform
            &&& end.batch.id == r.batch.id
            &&& end.batch.warned == r.batch.warned
            &&& end.stage == if remaining > 0 {
                ReceptionStage::Chunk { rel_path, path, remaining, covered }
            } else {
                ReceptionStage::Checksum { rel_path, covered }
            }
        }),
    decreases pieces.len(),
{
    if pieces.len() == 0 {
        assert(r.stage->Chunk_covered + joined(pieces) == r.stage->Chunk_covered);
    } else {
        first_pieces(pieces);
        the_receiver_covers_what_it_receives(r, pieces.drop_last(), times);
        assert(r.stage->Chunk_covered + joined(pieces) == r.stage->Chunk_covered + joined(
            pieces.drop_last(),
        ) + pieces.last());
    }
}

/// The sum that the side that sends gives for what it has covered is taken by the
/// side that receives if and only if both have covered bytes of the same SHA-256;
/// else the user is warned.
pub proof fn a_warning_comes_where_the_digests_differ(r: Reception, sent: Seq<u8>)
    requires
        r.stage is Checksum,
    ensures
        ({
            let received = r.stage->Checksum_covered;
            let message = Message::FileChecksum { checksum: checksum(sent) };
            let (next, effects) = r.after_checksum(Some(message));
            if sha256(received) == sha256(sent) {
                &&& effects == Seq::<EffectView>::empty()
                &&& next.batch == r.batch
            } else {
                &&& effects == seq![
                    EffectView::Warning { id: r.batch.id, file: r.stage->Checksum_rel_path },
                ]
                &&& next.batch.warned
            }
        }),
{
    let received = r.stage->Checksum_covered;
    if checksum(received) == checksum(sent) {
        hex_is_injective(sha256(received), sha256(sent));
    }
}

/// A file goes over, from wherever its transfer broke off before.
///
/// Both sides have opened it at byte `offset`, the one that sends with `file`, the
/// one that receives with `present` of it. When the rest has been sent and
/// received in whatever pieces, the receiver has the bytes that were there and the
/// rest of the file, and waits for the checksum; and the sender, at the end of
/// the file, sends the checksum of the whole file.
pub proof fn a_file_goes_over(
    s: Sending,
    r: Reception,
    file: Seq<u8>,
    present: Seq<u8>,
    offset: u64,
    pieces: Seq<Seq<u8>>,
    sent_at: Seq<u64>,
    received_at: Seq<u64>,
    path: Seq<char>,
    now: u64,
)
    requires
        offset <= file.len() <= u64::MAX,
        present.len() == offset,
        s.stage is Open,
        s.stage->Open_covered == file.take(offset as int),
        r.stage is Open,
        r.stage->Open_placement.size == file.len(),
        r.stage->Open_offset == offset,
        r.stage->Open_covered == present,
        are_pieces(pieces),
        joined(pieces) == file.skip(offset as int),
    ensures
        ({
            let received = after_receiving(r.after_open(path), pieces, received_at);
            let sent = after_sending(s.after_open(), pieces, sent_at);
            &&& received.stage == (ReceptionStage::Checksum {
                rel_path: r.stage->Open_rel_path,
                covered: present + file.skip(offset as int),
            })
            &&& received.batch.id == r.batch.id
            &&& received.batch.warned == r.batch.warned
            &&& sent.after_piece(Seq::empty(), now).1[0] == EffectView::Send(
                Message::FileChecksum { checksum: checksum(file) },
            )
        }),
{
    the_sender_covers_what_it_sends(s.after_open(), pieces, sent_at);
    assert(file.take(offset as int) + file.skip(offset as int) == file);
    let opened = r.after_open(path);
    if offset < file.len() {
        the_receiver_covers_what_it_receives(opened, pieces, received_at);
    } else {
        if pieces.len() > 0 {
            first_pieces(pieces);
        }
        assert(present + file.skip(offset as int) == present);
    }
}

/// Where the bytes that were there are those that the file begins with, the whole
/// file is there in the end, and no warning comes.
pub proof fn a_resumed_file_is_whole(
    r: Reception,
    file: Seq<u8>,
    present: Seq<u8>,
    offset: u64,
)
    requires
        offset <= file.len(),
        present == file.take(offset as int),
        r.stage is Checksum,
        r.stage->Checksum_covered == present + file.skip(offset as int),
    ensures
        r.stage->Checksum_covered == file,
        ({
            let message = Message::FileChecksum { checksum: checksum(file) };
            let (next, effects) = r.after_checksum(Some(message));
            &&& effects == Seq::<EffectView>::empty()
            &&& next.batch == r.batch
        }),
{
    assert(file.take(offset as int) + file.skip(offset as int) == file);
    a_warning_comes_where_the_digests_differ(r, file);
}

/// Where a file has a place, both sides begin at the same byte: what the receiver says
/// it has is less than the file, so the sender takes it as it is.
pub proof fn both_sides_begin_at_the_same_byte(
    folder: Map<Seq<char>, u64>,
    name: Seq<char>,
    size: u64,
)
    ensures
        ({
            let end = placed(folder, Placement { name, size, at: PlaceAt::First });
            end.at matches PlaceAt::Settled(_, offset) ==> offset_said(
                Message::FileOffsetResponse { offset },
                size,
            ) == offset
        }),
{
    a_file_finds_its_place(folder, name, size);
}

/// The side that receives, once it has asked `folder`, which maps the names of files to
/// their lengths, for the place of the file that is coming; and what it has done
/// meanwhile.
pub open spec fn after_probing(r: Reception, folder: Map<Seq<char>, u64>) -> (
    Reception,
    Seq<EffectView>,
)
    decreases
            match r.stage {
                ReceptionStage::Place { placement, .. } => questions(placement),
                _ => 0,
            },
{
    match r.stage {
        ReceptionStage::Place { placement, .. } => if placement.is_over() {
            (r, Seq::empty())
        } else {
            let (next, effects) = r.after_probe(existing(folder, placement.current()));
            let (end, more) = after_probing(next, folder);
            (end, effects + more)
        },
        _ => (r, Seq::empty()),
    }
}

/// The side that receives comes to the place that the search for it ends at. Where
/// nothing is there yet it says so and opens the file, else it hashes what is there.
/// Where there is no place the transfer fails, and no file is opened.
pub proof fn the_receiver_finds_the_place(r: Reception, folder: Map<Seq<char>, u64>)
    requires
        r.stage is Place,
        !r.stage->Place_placement.is_over(),
    ensures
        ({
            let rel_path = r.stage->Place_rel_path;
            let placement = placed(folder, r.stage->Place_placement);
            let (end, effects) = after_probing(r, folder);
            match placement.at {
                PlaceAt::Settled(_, offset) => {
                    &&& effects == if offset > 0 {
                        Seq::<EffectView>::empty()
                    } else {
                        seq![EffectView::Send(Message::FileOffsetResponse { offset })]
                    }
                    &&& end == r.at(
                        if offset > 0 {
                            ReceptionStage::Prefix { rel_path, placement, offset }
                        } else {
                            ReceptionStage::Open {
                                rel_path,
                                placement,
                                offset,
                                covered: Seq::empty(),
                            }
                        },
                    )
                },
                PlaceAt::Full => (end, effects) == r.after_failure(ReceiveError::NoPlace),
                _ => false,
            }
        }),
    decreases questions(r.stage->Place_placement),
{
    let p = r.stage->Place_placement;
    let found = existing(folder, p.current());
    let (next, effects) = r.after_probe(found);
    let more = after_probing(next, folder).1;
    if p.after(found).is_over() {
        assert(placed(folder, p.after(found)) == p.after(found));
        assert(after_probing(next, folder) == (next, Seq::<EffectView>::empty()));
        assert(effects + more == effects);
    } else {
        the_receiver_finds_the_place(next, folder);
        assert(effects + more == more);
    }
}

/// What the lengths of the files on a disk are.
pub open spec fn lengths(disk: Map<Seq<char>, Seq<u8>>) -> Map<Seq<char>, u64> {
    disk.map_values(|file: Seq<u8>| file.len() as u64)
}

/// What is there of a file that goes to `place`.
pub open spec fn present_at(disk: Map<Seq<char>, Seq<u8>>, place: Placement) -> Seq<u8> {
    match place.at {
        PlaceAt::Settled(_, offset) => if offset > 0 {
            disk[place.current()]
        } else {
            Seq::empty()
        },
        _ => Seq::empty(),
    }
}

/// What is there of a file is as long as the receiver says.
proof fn what_is_there_has_its_length(
    disk: Map<Seq<char>, Seq<u8>>,
    name: Seq<char>,
    size: u64,
)
    requires
        forall|n: Seq<char>| #[trigger] disk.contains_key(n) ==> disk[n].len() <= u64::MAX,
    ensures
        ({
            let place = placed(lengths(disk), Placement { name, size, at: PlaceAt::First });
            &&& place.size == size
            &&& place.at matches PlaceAt::Settled(_, offset) ==> {
                &&& present_at(disk, place).len() == offset
                &&& offset == 0 || offset < size
            }
        }),
{
    let folder = lengths(disk);
    a_file_finds_its_place(folder, name, size);
    if folder.contains_key(name) && folder[name] < size {
        assert(disk.contains_key(name));
        assert(nth_name(name, 0) == name);
    }
}

/// One file for which there is a way and a place goes over, from the question for its
/// beginning to its checksum.
///
/// The receiver has `disk`, which maps the names of files in the folder at the end of the
/// way to what they hold, and would call the file `name`, as the way does. It finds the place, and says how much is there. The sender
/// goes on from there, in whatever pieces. In the end the receiver has what was there
/// and the rest of the file; it warns the user if and only if the SHA-256 of that is
/// not the SHA-256 of the file; and both sides are ready for what comes next.
pub proof fn a_file_is_transferred(
    s: Sending,
    r: Reception,
    file: Seq<u8>,
    disk: Map<Seq<char>, Seq<u8>>,
    name: Seq<char>,
    path: Seq<char>,
    pieces: Seq<Seq<u8>>,
    sent_at: Seq<u64>,
    received_at: Seq<u64>,
    now: u64,
)
    requires
        s.stage is Measure,
        s.stage->Measure_file < s.names.len(),
        parts_of(r.platform, s.names[s.stage->Measure_file as int]).len() > 0,
        name == parts_of(r.platform, s.names[s.stage->Measure_file as int]).last(),
        r.stage is Message,
        file.len() <= u64::MAX,
        forall|n: Seq<char>| #[trigger] disk.contains_key(n) ==> disk[n].len() <= u64::MAX,
        are_pieces(pieces),
        ({
            let size = file.len() as u64;
            let place = placed(lengths(disk), Placement { name, size, at: PlaceAt::First });
            &&& place.at is Settled
            &&& joined(pieces) == file.skip(present_at(disk, place).len() as int)
        }),
    ensures
        ({
            let size = file.len() as u64;
            let place = placed(lengths(disk), Placement { name, size, at: PlaceAt::First });
            let present = present_at(disk, place);
            let offset = present.len() as u64;

            let (s1, question) = s.after_measure(size);
            let asked = Message::FileOffsetRequest {
                rel_path: s.names[s.stage->Measure_file as int],
                file_size: size,
            };
            let r1 = r.after_message(asked, now).0.after_locating();
            let (r2, answer) = after_probing(r1, lengths(disk));
            let (r3, later_answer) = if offset > 0 {
                r2.after_prefix(Some(present))
            } else {
                (r2, Seq::empty())
            };
            let answered = Message::FileOffsetResponse { offset };
            let s2 = s1.after_offset(Some(answered));
            let s3 = if offset > 0 {
                s2.after_prefix(Some(file.take(offset as int)))
            } else {
                s2
            };
            let s4 = after_sending(s3.after_open(), pieces, sent_at);
            let r4 = after_receiving(r3.after_open(path), pieces, received_at);
            let (s5, ending) = s4.after_piece(Seq::empty(), now);
            let sum = Message::FileChecksum { checksum: checksum(file) };
            let (r5, warnings) = r4.after_checksum(Some(sum));
            let whole = present + file.skip(offset as int);

            &&& question == seq![EffectView::Send(asked)]
            &&& s3.stage is Open
            &&& s3.stage->Open_file == s.stage->Measure_file
            &&& s3.stage->Open_offset == offset
            &&& next_action(s3) == OutgoingAction::Open(s.stage->Measure_file as usize, offset)
            &&& offset > 0 ==> next_action(s2) == OutgoingAction::HashPrefix(
                s.stage->Measure_file as usize,
                offset,
            )
            &&& r3.stage is Open
            &&& r3.stage->Open_offset == offset
            &&& r3.stage->Open_placement == place
            &&& answer + later_answer == seq![EffectView::Send(answered)]
            &&& ending[0] == EffectView::Send(sum)
            &&& r4.stage->Checksum_covered == whole
            &&& s5.stage == s.from_file(s.stage->Measure_file + 1).0.stage
            &&& r5.stage is Message
            &&& r5.batch.id == r.batch.id
            &&& r5.batch.warned == (r.batch.warned || sha256(whole) != sha256(file))
            &&& (warnings.len() > 0) == (sha256(whole) != sha256(file))
            &&& present == file.take(offset as int) ==> whole == file
        }),
{
    let size = file.len() as u64;
    let folder = lengths(disk);
    let place = placed(folder, Placement { name, size, at: PlaceAt::First });
    let present = present_at(disk, place);
    let offset = present.len() as u64;
    what_is_there_has_its_length(disk, name, size);

    let number = s.stage->Measure_file;
    let asked = Message::FileOffsetRequest { rel_path: s.names[number as int], file_size: size };
    let s1 = s.after_measure(size).0;
    let r1 = r.after_message(asked, now).0.after_locating();
    the_receiver_finds_the_place(r1, folder);
    let r2 = after_probing(r1, folder).0;
    let r3 = if offset > 0 {
        r2.after_prefix(Some(present)).0
    } else {
        r2
    };
    let s2 = s1.after_offset(Some(Message::FileOffsetResponse { offset }));
    let s3 = if offset > 0 {
        s2.after_prefix(Some(file.take(offset as int)))
    } else {
        s2
    };
    assert(file.take(0) == Seq::<u8>::empty());
    a_file_goes_over(s3, r3, file, present, offset, pieces, sent_at, received_at, path, now);
    the_sender_covers_what_it_sends(s3.after_open(), pieces, sent_at);
    let r4 = after_receiving(r3.after_open(path), pieces, received_at);
    a_warning_comes_where_the_digests_differ(r4, file);
    assert(file.take(offset as int) + file.skip(offset as int) == file);
}

/// What a sender does for all the world to see.
pub enum Sent {
    /// A message goes out.
    Message(Message),
    /// A piece of a file goes out.
    Piece(Seq<u8>),
    /// The transfer can no longer be cancelled.
    Released(Seq<char>),
}

/// What of `effects` is seen.
pub open spec fn seen(effects: Seq<EffectView>) -> Seq<Sent>
    decreases effects.len(),
{
    if effects.len() == 0 {
        Seq::empty()
    } else {
        let before = seen(effects.drop_last());
        match effects.last() {
            EffectView::Send(message) => before.push(Sent::Message(message)),
            EffectView::Unregister { id } => before.push(Sent::Released(id)),
            _ => before,
        }
    }
}

/// One file of a transfer that goes out: what it holds, how much of it the receiver says
/// it has, the pieces that the rest is read in, and when each was sent.
pub struct Outbound {
    pub content: Seq<u8>,
    pub said: u64,
    pub pieces: Seq<Seq<u8>>,
    pub times: Seq<u64>,
}

impl Outbound {
    /// The byte that sending begins at.
    pub open spec fn offset(self) -> int {
        if self.said < self.content.len() {
            self.said as int
        } else {
            self.content.len() as int
        }
    }

    /// The pieces are what reading the rest of the file gives: none is empty or longer
    /// than asked for, and together they are the rest.
    pub open spec fn is_read(self) -> bool {
        &&& self.content.len() <= u64::MAX
        &&& are_pieces(self.pieces)
        &&& forall|k: int|
            0 <= k < self.pieces.len() ==> (#[trigger] self.pieces[k]).len() <= CHUNK_SIZE
        &&& joined(self.pieces) == self.content.skip(self.offset())
    }

    /// What is seen of the file under the name `rel_path`: the question for its
    /// beginning, the rest of it, and the checksum of all of it.
    pub open spec fn seen(self, rel_path: Seq<char>) -> Seq<Sent> {
        let question = Message::FileOffsetRequest {
            rel_path,
            file_size: self.content.len() as u64,
        };
        let sum = Message::FileChecksum { checksum: checksum(self.content) };
        seq![Sent::Message(question)] + self.pieces.map_values(|piece: Seq<u8>| Sent::Piece(piece))
            + seq![Sent::Message(sum)]
    }
}

/// The side that sends, after it has sent `pieces`, and what was seen of it.
pub open spec fn pieces_sent(s: Sending, pieces: Seq<Seq<u8>>, times: Seq<u64>) -> (
    Sending,
    Seq<Sent>,
)
    decreases pieces.len(),
{
    if pieces.len() == 0 {
        (s, Seq::empty())
    } else {
        let (before, sent) = pieces_sent(s, pieces.drop_last(), times);
        let (next, effects) = before.after_piece(pieces.last(), times[pieces.len() - 1]);
        (next, sent.push(Sent::Piece(pieces.last())) + seen(effects))
    }
}

/// The side that sends, when it has heard how much of `file` the receiver has, and when it is
/// about to open the file.
pub open spec fn about_to_open(s: Sending, file: Outbound) -> (Sending, Sending) {
    let asking = s.after_measure(file.content.len() as u64).0;
    let answered = asking.after_offset(Some(Message::FileOffsetResponse { offset: file.said }));
    (
        answered,
        if answered.stage is Prefix {
            answered.after_prefix(Some(file.content.take(file.offset())))
        } else {
            answered
        },
    )
}

/// The side that sends, after one whole file, and what was seen of it.
pub open spec fn file_sent(s: Sending, file: Outbound) -> (Sending, Seq<Sent>) {
    let (asking, question) = s.after_measure(file.content.len() as u64);
    let answered = asking.after_offset(Some(Message::FileOffsetResponse { offset: file.said }));
    let begun = if answered.stage is Prefix {
        answered.after_prefix(Some(file.content.take(file.offset())))
    } else {
        answered
    };
    let (sending, sent) = pieces_sent(begun.after_open(), file.pieces, file.times);
    let (next, ending) = sending.after_piece(Seq::empty(), 0);
    (next, seen(question) + sent + seen(ending))
}

/// The side that sends, after `files` one after the other, and what was seen of it.
pub open spec fn files_sent(s: Sending, files: Seq<Outbound>) -> (Sending, Seq<Sent>)
    decreases files.len(),
{
    if files.len() == 0 {
        (s, Seq::empty())
    } else {
        let (before, sent) = files_sent(s, files.drop_last());
        let (next, more) = file_sent(before, files.last());
        (next, sent + more)
    }
}

/// What is to be seen of `files` under `names`, file after file.
pub open spec fn all_seen(names: Seq<Seq<char>>, files: Seq<Outbound>) -> Seq<Sent>
    decreases files.len(),
{
    if files.len() == 0 {
        Seq::empty()
    } else {
        all_seen(names, files.drop_last()) + files.last().seen(names[files.len() - 1])
    }
}

/// Nothing but the pieces is seen while pieces are sent.
proof fn only_pieces_are_seen(s: Sending, pieces: Seq<Seq<u8>>, times: Seq<u64>)
    requires
        s.stage is Piece,
        are_pieces(pieces),
    ensures
        pieces_sent(s, pieces, times).0 == after_sending(s, pieces, times),
        pieces_sent(s, pieces, times).1 == pieces.map_values(
            |piece: Seq<u8>| Sent::Piece(piece),
        ),
    decreases pieces.len(),
{
    let shown = |piece: Seq<u8>| Sent::Piece(piece);
    if pieces.len() == 0 {
        assert(pieces.map_values(shown) == Seq::<Sent>::empty());
    } else {
        let init = pieces.drop_last();
        first_pieces(pieces);
        only_pieces_are_seen(s, init, times);
        the_sender_covers_what_it_sends(s, init, times);
        let (before, sent) = pieces_sent(s, init, times);
        let effects = before.after_piece(pieces.last(), times[pieces.len() - 1]).1;
        reveal_with_fuel(seen, 2);
        assert(seen(effects) == Seq::<Sent>::empty());
        assert(sent.push(Sent::Piece(pieces.last())) + seen(effects) == sent.push(
            Sent::Piece(pieces.last()),
        ));
        assert(pieces.map_values(shown) == init.map_values(shown).push(
            Sent::Piece(pieces.last()),
        ));
    }
}

/// What is seen of one file, and what comes after it.
proof fn one_file_is_seen(s: Sending, file: Outbound)
    requires
        s.stage is Measure,
        s.stage->Measure_file < s.names.len(),
        file.is_read(),
    ensures
        ({
            let number = s.stage->Measure_file;
            let (next, sent) = file_sent(s, file);
            let ended = if number + 1 < s.names.len() {
                Seq::empty()
            } else {
                seq![Sent::Message(Message::AllDone), Sent::Released(s.id)]
            };
            &&& sent == file.seen(s.names[number as int]) + ended
            &&& next.id == s.id
            &&& next.names == s.names
            &&& next.stage == if number + 1 < s.names.len() {
                SendingStage::Measure { file: number + 1 }
            } else {
                SendingStage::Done
            }
        }),
{
    let number = s.stage->Measure_file;
    let offset = file.offset();
    let size = file.content.len() as u64;
    let (asking, question) = s.after_measure(size);
    let answered = asking.after_offset(Some(Message::FileOffsetResponse { offset: file.said }));
    let begun = if answered.stage is Prefix {
        answered.after_prefix(Some(file.content.take(offset)))
    } else {
        answered
    };
    assert(file.content.take(0) == Seq::<u8>::empty());
    assert(begun.stage->Open_covered == file.content.take(offset));
    let opened = begun.after_open();
    only_pieces_are_seen(opened, file.pieces, file.times);
    the_sender_covers_what_it_sends(opened, file.pieces, file.times);
    assert(file.content.take(offset) + file.content.skip(offset) == file.content);
    let (sending, sent) = pieces_sent(opened, file.pieces, file.times);
    let (next, ending) = sending.after_piece(Seq::empty(), 0);
    reveal_with_fuel(seen, 5);
    assert(question.drop_last() == Seq::<EffectView>::empty());
    assert(seen(question) == seq![Sent::Message(question[0]->Send_0)]);
    let sum = Message::FileChecksum { checksum: checksum(file.content) };
    assert(ending[0] == EffectView::Send(sum));
    let shown = file.pieces.map_values(|piece: Seq<u8>| Sent::Piece(piece));
    if number + 1 < s.names.len() {
        assert(ending == seq![EffectView::Send(sum)]);
        assert(ending.drop_last() == Seq::<EffectView>::empty());
        assert(seen(ending) == seq![Sent::Message(sum)]);
        assert(seen(question) + sent + seen(ending) == file.seen(s.names[number as int])
            + Seq::<Sent>::empty());
    } else {
        let first = seq![EffectView::Send(sum)];
        let two = first.push(EffectView::Send(Message::AllDone));
        assert(ending == two.push(EffectView::Unregister { id: s.id }));
        assert(ending.drop_last() == two);
        assert(two.drop_last() == first);
        assert(first.drop_last() == Seq::<EffectView>::empty());
        assert(seen(ending) == seq![
            Sent::Message(sum),
            Sent::Message(Message::AllDone),
            Sent::Released(s.id),
        ]);
        assert(seen(question) + sent + seen(ending) == file.seen(s.names[number as int]) + seq![
            Sent::Message(Message::AllDone),
            Sent::Released(s.id),
        ]);
    }
}

/// What is seen of the first files of a transfer, and what comes after them.
proof fn the_first_files_are_seen(s: Sending, files: Seq<Outbound>)
    requires
        s.stage == (SendingStage::Measure { file: 0 }),
        0 < files.len() <= s.names.len(),
        forall|k: int| 0 <= k < files.len() ==> (#[trigger] files[k]).is_read(),
    ensures
        ({
            let (next, sent) = files_sent(s, files);
            let ended = if files.len() < s.names.len() {
                Seq::empty()
            } else {
                seq![Sent::Message(Message::AllDone), Sent::Released(s.id)]
            };
            &&& sent == all_seen(s.names, files) + ended
            &&& next.id == s.id
            &&& next.names == s.names
            &&& next.stage == if files.len() < s.names.len() {
                SendingStage::Measure { file: files.len() }
            } else {
                SendingStage::Done
            }
        }),
    decreases files.len(),
{
    let init = files.drop_last();
    let last = files[files.len() - 1];
    let (before, sent) = files_sent(s, init);
    if init.len() > 0 {
        assert forall|k: int| 0 <= k < init.len() implies (#[trigger] init[k]).is_read() by {
            assert(init[k] == files[k]);
        }
        the_first_files_are_seen(s, init);
    }
    one_file_is_seen(before, last);
    let more = file_sent(before, last).1;
    let earlier = all_seen(s.names, init);
    assert(sent == earlier);
    let own = last.seen(s.names[files.len() - 1]);
    let ended = if files.len() < s.names.len() {
        Seq::empty()
    } else {
        seq![Sent::Message(Message::AllDone), Sent::Released(s.id)]
    };
    assert(sent + (own + ended) == (earlier + own) + ended);
}

/// `file`, the one of number `k` among `files`, is opened at the byte that the receiver said,
/// or at its end where the receiver said more. As many bytes in front of that are hashed.
pub open spec fn is_opened_where_said(
    begun: Sending,
    files: Seq<Outbound>,
    file: Outbound,
    k: int,
) -> bool {
    let (answered, ready) = about_to_open(files_sent(begun, files.take(k)).0, file);
    let from = if file.said as int <= file.content.len() {
        file.said
    } else {
        file.content.len() as u64
    };
    &&& next_action(ready) == OutgoingAction::Open(k as usize, from)
    &&& from > 0 ==> next_action(answered) == OutgoingAction::HashPrefix(k as usize, from)
    &&& ready.stage->Open_covered == file.content.take(from as int)
}

/// Each file of a transfer is opened at the byte that the receiver said.
proof fn each_file_is_opened_where_said(begun: Sending, files: Seq<Outbound>, k: int)
    requires
        begun.stage == (SendingStage::Measure { file: 0 }),
        files.len() == begun.names.len(),
        forall|j: int| 0 <= j < files.len() ==> (#[trigger] files[j]).is_read(),
        0 <= k < files.len(),
    ensures
        is_opened_where_said(begun, files, files[k], k),
{
    let first = files.take(k);
    if k > 0 {
        assert forall|j: int| 0 <= j < first.len() implies (#[trigger] first[j]).is_read() by {
            assert(first[j] == files[j]);
        }
        the_first_files_are_seen(begun, first);
    }
    let before = files_sent(begun, first).0;
    assert(before.stage == (SendingStage::Measure { file: k as nat }));
    assert(files[k].is_read());
    assert(files[k].content.take(0) == Seq::<u8>::empty());
}

/// What is seen of a transfer that is accepted, from the answer to its end.
proof fn a_whole_transfer_is_seen(s: Sending, files: Seq<Outbound>, now: u64)
    requires
        s.stage is Response,
        files.len() == s.names.len(),
        forall|k: int| 0 <= k < files.len() ==> (#[trigger] files[k]).is_read(),
    ensures
        ({
            let (begun, effects) = s.after_response(Some(Message::TransferAccepted), now);
            let (end, sent) = files_sent(begun, files);
            &&& seen(effects) + sent == all_seen(s.names, files) + seq![
                Sent::Message(Message::AllDone),
                Sent::Released(s.id),
            ]
            &&& end.stage is Done
        }),
{
    let (begun, effects) = s.after_response(Some(Message::TransferAccepted), now);
    let assigned = EffectView::Assigned { id: s.id };
    reveal_with_fuel(seen, 4);
    if files.len() == 0 {
        let first = seq![assigned];
        let two = first.push(EffectView::Send(Message::AllDone));
        assert(effects == two.push(EffectView::Unregister { id: s.id }));
        assert(effects.drop_last() == two);
        assert(two.drop_last() == first);
        assert(first.drop_last() == Seq::<EffectView>::empty());
        assert(seen(effects) + files_sent(begun, files).1 == all_seen(s.names, files) + seq![
            Sent::Message(Message::AllDone),
            Sent::Released(s.id),
        ]);
    } else {
        assert(effects == seq![assigned]);
        assert(effects.drop_last() == Seq::<EffectView>::empty());
        assert(seen(effects) == Seq::<Sent>::empty());
        the_first_files_are_seen(begun, files);
        let sent = files_sent(begun, files).1;
        assert(Seq::<Sent>::empty() + sent == sent);
    }
}

/// A transfer that is accepted goes out as it should, from the answer to its end: for
/// each file in order the question for its beginning, the rest of it in pieces, and the
/// checksum of all of it; last of all, once, that everything is done. Then the transfer
/// can no longer be cancelled, and it has not failed. Each file is opened at the byte that the
/// receiver said, or at its end where the receiver said more, and as many bytes in front of
/// that are hashed.
pub proof fn a_transfer_goes_out(s: Sending, files: Seq<Outbound>, now: u64)
    requires
        s.stage is Response,
        files.len() == s.names.len(),
        forall|k: int| 0 <= k < files.len() ==> (#[trigger] files[k]).is_read(),
    ensures
        ({
            let (begun, effects) = s.after_response(Some(Message::TransferAccepted), now);
            let (end, sent) = files_sent(begun, files);
            &&& seen(effects) + sent == all_seen(s.names, files) + seq![
                Sent::Message(Message::AllDone),
                Sent::Released(s.id),
            ]
            &&& end.stage is Done
            &&& forall|k: int|
                0 <= k < files.len() ==> is_opened_where_said(begun, files, #[trigger] files[k], k)
        }),
{
    let begun = s.after_response(Some(Message::TransferAccepted), now).0;
    a_whole_transfer_is_seen(s, files, now);
    assert forall|k: int| 0 <= k < files.len() implies is_opened_where_said(
        begun,
        files,
        #[trigger] files[k],
        k,
    ) by {
        each_file_is_opened_where_said(begun, files, k);
    }
}

/// The user is told that a transfer is complete with every piece of progress at one
/// hundred percent. At the end it is told if and only if no such piece has told it.
pub proof fn completion_is_told(r: Reception, chunk: Seq<u8>, now: u64)
    ensures
        r.stage is Chunk ==> {
            let (next, effects) = r.after_chunk(chunk, now);
            let told = effects.len() > 0 && (effects[0] matches EffectView::Progress { tick, .. }
                && tick.is_done);
            next.batch.completed == (r.batch.completed || told)
        },
        r.stage is Message ==> {
            let complete = EffectView::Complete {
                id: r.batch.id,
                text: r.batch.label,
                destination: r.batch.destination(r.save_dir),
            };
            r.after_message(Message::AllDone, now).1.contains(complete) == !r.batch.completed
        },
{
    if r.stage is Message {
        let complete = EffectView::Complete {
            id: r.batch.id,
            text: r.batch.label,
            destination: r.batch.destination(r.save_dir),
        };
        let effects = r.after_message(Message::AllDone, now).1;
        if !r.batch.completed {
            let at: int = if r.batch.id.len() > 0 {
                1
            } else {
                0
            };
            assert(effects[at] == complete);
        }
    }
}

/// Whether `effect` tells the user that the transfer is complete.
pub open spec fn says_done(effect: EffectView) -> bool {
    match effect {
        EffectView::Progress { tick, .. } => tick.is_done && tick.pct == 100,
        EffectView::Complete { .. } => true,
        _ => false,
    }
}

/// Whether one of `effects` tells the user that the transfer is complete.
pub open spec fn told(effects: Seq<EffectView>) -> bool {
    exists|k: int| 0 <= k < effects.len() && says_done(#[trigger] effects[k])
}

/// What is told in one of two rows of effects is told in both together.
proof fn told_in_either(a: Seq<EffectView>, b: Seq<EffectView>)
    ensures
        told(a) || told(b) ==> told(a + b),
{
    if told(a) {
        let k = choose|k: int| 0 <= k < a.len() && says_done(#[trigger] a[k]);
        assert((a + b)[k] == a[k]);
    } else if told(b) {
        let k = choose|k: int| 0 <= k < b.len() && says_done(#[trigger] b[k]);
        assert((a + b)[a.len() + k] == b[k]);
    }
}

/// The files below the download folder: what each holds, by the way to it.
pub type Disk = Map<Seq<Seq<char>>, Seq<u8>>;

/// What the files in the folder at the end of `way` hold, by their names.
pub open spec fn folder_at(disk: Disk, way: Seq<Seq<char>>) -> Map<Seq<char>, Seq<u8>> {
    Map::new(
        |name: Seq<char>| disk.contains_key(way.drop_last().push(name)),
        |name: Seq<char>| disk[way.drop_last().push(name)],
    )
}

/// The files on the disk are no longer than files can be.
pub open spec fn is_disk(disk: Disk) -> bool {
    forall|way: Seq<Seq<char>>| #[trigger]
        disk.contains_key(way) ==> disk[way].len() <= u64::MAX
}

/// One file of a transfer that comes in: what the sender calls it, what it holds, where it
/// is shown to be, the pieces that its rest comes in, and when each came.
pub struct Inbound {
    pub rel_path: Seq<char>,
    pub content: Seq<u8>,
    pub path: Seq<char>,
    pub pieces: Seq<Seq<u8>>,
    pub times: Seq<u64>,
}

impl Inbound {
    /// The way to the file.
    pub open spec fn way(self, platform: Platform) -> Seq<Seq<char>> {
        parts_of(platform, self.rel_path)
    }

    /// The place that the file finds.
    pub open spec fn place(self, platform: Platform, disk: Disk) -> Placement {
        let way = self.way(platform);
        placed(
            lengths(folder_at(disk, way)),
            Placement { name: way.last(), size: self.content.len() as u64, at: PlaceAt::First },
        )
    }

    /// The way to that place.
    pub open spec fn goes_to(self, platform: Platform, disk: Disk) -> Seq<Seq<char>> {
        self.way(platform).drop_last().push(self.place(platform, disk).current())
    }

    /// What is there of the file already.
    pub open spec fn present(self, platform: Platform, disk: Disk) -> Seq<u8> {
        present_at(folder_at(disk, self.way(platform)), self.place(platform, disk))
    }

    /// What is there in the end: what was there, and the rest of the file.
    pub open spec fn whole(self, platform: Platform, disk: Disk) -> Seq<u8> {
        let present = self.present(platform, disk);
        present + self.content.skip(present.len() as int)
    }

    /// The file has a way and a place, and its rest comes in pieces.
    pub open spec fn can_come(self, platform: Platform, disk: Disk) -> bool {
        &&& self.content.len() <= u64::MAX
        &&& self.way(platform).len() > 0
        &&& self.place(platform, disk).at is Settled
        &&& are_pieces(self.pieces)
        &&& joined(self.pieces) == self.content.skip(self.present(platform, disk).len() as int)
    }

    /// The disk once the file has come.
    pub open spec fn stored(self, platform: Platform, disk: Disk) -> Disk {
        disk.insert(self.goes_to(platform, disk), self.whole(platform, disk))
    }
}

/// The disk once `files` have come, one after the other.
pub open spec fn all_stored(platform: Platform, disk: Disk, files: Seq<Inbound>) -> Disk
    decreases files.len(),
{
    if files.len() == 0 {
        disk
    } else {
        files.last().stored(platform, all_stored(platform, disk, files.drop_last()))
    }
}

/// Each of `files` has a way and a place when its turn comes.
pub open spec fn all_can_come(platform: Platform, disk: Disk, files: Seq<Inbound>) -> bool
    decreases files.len(),
{
    files.len() > 0 ==> {
        let init = files.drop_last();
        &&& all_can_come(platform, disk, init)
        &&& files.last().can_come(platform, all_stored(platform, disk, init))
    }
}

/// Whether one of `files` has another SHA-256 where it is stored than where it came from.
pub open spec fn some_differ(platform: Platform, disk: Disk, files: Seq<Inbound>) -> bool
    decreases files.len(),
{
    files.len() > 0 && {
        let init = files.drop_last();
        let last = files.last();
        let whole = last.whole(platform, all_stored(platform, disk, init));
        some_differ(platform, disk, init) || sha256(whole) != sha256(last.content)
    }
}

/// The side that receives, after it has received `pieces`, and what it has done meanwhile.
pub open spec fn pieces_received(r: Reception, pieces: Seq<Seq<u8>>, times: Seq<u64>) -> (
    Reception,
    Seq<EffectView>,
)
    decreases pieces.len(),
{
    if pieces.len() == 0 {
        (r, Seq::empty())
    } else {
        let (before, effects) = pieces_received(r, pieces.drop_last(), times);
        let (next, more) = before.after_chunk(pieces.last(), times[pieces.len() - 1]);
        (next, effects + more)
    }
}

/// The side that receives and its disk, after one whole file, and what it has done
/// meanwhile. Whatever it has covered of the file is what the file then holds.
pub open spec fn file_received(r: Reception, disk: Disk, file: Inbound, now: u64) -> (
    Reception,
    Disk,
    Seq<EffectView>,
) {
    let way = file.way(r.platform);
    let asked = Message::FileOffsetRequest {
        rel_path: file.rel_path,
        file_size: file.content.len() as u64,
    };
    let (asking, e0) = r.after_message(asked, now);
    let (found, e1) = after_probing(asking.after_locating(), lengths(folder_at(disk, way)));
    let (ready, e2) = if found.stage is Prefix {
        found.after_prefix(Some(file.present(r.platform, disk)))
    } else {
        (found, Seq::empty())
    };
    let name = ready.stage->Open_placement.current();
    let (come, e3) = pieces_received(ready.after_open(file.path), file.pieces, file.times);
    let sum = Message::FileChecksum { checksum: checksum(file.content) };
    let (next, e4) = come.after_checksum(Some(sum));
    (
        next,
        disk.insert(way.drop_last().push(name), come.stage->Checksum_covered),
        e0 + e1 + e2 + e3 + e4,
    )
}

/// The side that receives and its disk, after `files` one after the other, and what it
/// has done meanwhile.
pub open spec fn files_received(r: Reception, disk: Disk, files: Seq<Inbound>, now: u64) -> (
    Reception,
    Disk,
    Seq<EffectView>,
)
    decreases files.len(),
{
    if files.len() == 0 {
        (r, disk, Seq::empty())
    } else {
        let (before, so_far, effects) = files_received(r, disk, files.drop_last(), now);
        let (next, end, more) = file_received(before, so_far, files.last(), now);
        (next, end, effects + more)
    }
}

/// Where pieces bring a transfer to its completion, that is told with one of them.
proof fn pieces_tell_completion(r: Reception, pieces: Seq<Seq<u8>>, times: Seq<u64>)
    ensures
        pieces_received(r, pieces, times).0 == after_receiving(r, pieces, times),
        pieces_received(r, pieces, times).0.batch.completed ==> r.batch.completed || told(
            pieces_received(r, pieces, times).1,
        ),
    decreases pieces.len(),
{
    if pieces.len() > 0 {
        let init = pieces.drop_last();
        pieces_tell_completion(r, init, times);
        let (before, effects) = pieces_received(r, init, times);
        let (next, more) = before.after_chunk(pieces.last(), times[pieces.len() - 1]);
        if next.batch.completed && !before.batch.completed {
            assert(says_done(more[0]));
        }
        told_in_either(effects, more);
    }
}

/// One file comes in, to its place.
proof fn one_file_is_received(r: Reception, disk: Disk, file: Inbound, now: u64)
    requires
        r.stage is Message,
        is_disk(disk),
        file.can_come(r.platform, disk),
    ensures
        ({
            let (next, end, effects) = file_received(r, disk, file, now);
            let whole = file.whole(r.platform, disk);
            &&& next.stage is Message
            &&& next.platform == r.platform
            &&& next.batch.id == r.batch.id
            &&& next.batch.warned == (r.batch.warned || sha256(whole) != sha256(file.content))
            &&& next.batch.completed ==> r.batch.completed || told(effects)
            &&& end == file.stored(r.platform, disk)
            &&& is_disk(end)
        }),
{
    let way = file.way(r.platform);
    let folder = folder_at(disk, way);
    let size = file.content.len() as u64;
    let place = file.place(r.platform, disk);
    let present = file.present(r.platform, disk);
    let whole = file.whole(r.platform, disk);
    assert forall|n: Seq<char>| #[trigger] folder.contains_key(n) implies folder[n].len()
        <= u64::MAX by {
        assert(disk.contains_key(way.drop_last().push(n)));
    }
    what_is_there_has_its_length(folder, way.last(), size);
    let asked = Message::FileOffsetRequest { rel_path: file.rel_path, file_size: size };
    let (asking, e0) = r.after_message(asked, now);
    let located = asking.after_locating();
    the_receiver_finds_the_place(located, lengths(folder));
    let (found, e1) = after_probing(located, lengths(folder));
    let (ready, e2) = if found.stage is Prefix {
        found.after_prefix(Some(present))
    } else {
        (found, Seq::empty())
    };
    assert(ready.stage->Open_placement == place);
    assert(ready.stage->Open_covered == present);
    let opened = ready.after_open(file.path);
    let (come, e3) = pieces_received(opened, file.pieces, file.times);
    pieces_tell_completion(opened, file.pieces, file.times);
    if opened.stage is Chunk {
        the_receiver_covers_what_it_receives(opened, file.pieces, file.times);
    } else {
        if file.pieces.len() > 0 {
            first_pieces(file.pieces);
        }
        assert(present + file.content.skip(present.len() as int) == present);
    }
    assert(come.stage->Checksum_covered == whole);
    a_warning_comes_where_the_digests_differ(come, file.content);
    let sum = Message::FileChecksum { checksum: checksum(file.content) };
    let (next, e4) = come.after_checksum(Some(sum));
    told_in_either(e0 + e1 + e2, e3);
    told_in_either(e0 + e1 + e2 + e3, e4);
    assert(whole.len() == file.content.len());
    let end = file.stored(r.platform, disk);
    assert(file_received(r, disk, file, now).1 == end);
    assert forall|w: Seq<Seq<char>>| #[trigger] end.contains_key(w) implies end[w].len()
        <= u64::MAX by {
        if w != file.goes_to(r.platform, disk) {
            assert(disk.contains_key(w));
        }
    }
}

/// Files come in one after the other, each to its place.
proof fn the_files_are_received(r: Reception, disk: Disk, files: Seq<Inbound>, now: u64)
    requires
        r.stage is Message,
        is_disk(disk),
        all_can_come(r.platform, disk, files),
    ensures
        ({
            let (next, end, effects) = files_received(r, disk, files, now);
            &&& next.stage is Message
            &&& next.platform == r.platform
            &&& next.batch.id == r.batch.id
            &&& next.batch.warned == (r.batch.warned || some_differ(r.platform, disk, files))
            &&& next.batch.completed ==> r.batch.completed || told(effects)
            &&& end == all_stored(r.platform, disk, files)
            &&& is_disk(end)
        }),
    decreases files.len(),
{
    if files.len() > 0 {
        let init = files.drop_last();
        the_files_are_received(r, disk, init, now);
        let (before, so_far, effects) = files_received(r, disk, init, now);
        one_file_is_received(before, so_far, files.last(), now);
        told_in_either(effects, file_received(before, so_far, files.last(), now).2);
    }
}

/// A transfer that the user accepts comes in as it should, from its request to its end:
/// every file is stored whole at its place, the user is warned if and only if one of
/// them has another SHA-256 there than where it came from, and by the end the user has
/// been told that the transfer is complete and it can no longer be cancelled.
pub proof fn a_transfer_comes_in(
    r: Reception,
    total_size: u64,
    total_files: u32,
    id: Seq<char>,
    files: Seq<Inbound>,
    disk: Disk,
    now: u64,
)
    requires
        r.stage is Message,
        is_disk(disk),
        all_can_come(r.platform, disk, files),
    ensures
        ({
            let request = Message::TransferRequest { total_size, total_files, id };
            let asked = r.after_message(request, now).0;
            let (begun, welcome) = asked.after_answer(Some(true));
            let (come, end, effects) = files_received(begun, disk, files, now);
            let (done, ending) = come.after_message(Message::AllDone, now);
            &&& welcome[0] == EffectView::Send(Message::TransferAccepted)
            &&& end == all_stored(r.platform, disk, files)
            &&& come.batch.warned == some_differ(r.platform, disk, files)
            &&& told(effects + ending)
            &&& id.len() > 0 ==> ending.contains(EffectView::Unregister { id })
            &&& done.stage is Done
        }),
{
    let request = Message::TransferRequest { total_size, total_files, id };
    let begun = r.after_message(request, now).0.after_answer(Some(true)).0;
    the_files_are_received(begun, disk, files, now);
    let (come, end, effects) = files_received(begun, disk, files, now);
    let ending = come.after_message(Message::AllDone, now).1;
    if id.len() > 0 {
        assert(ending[0] == EffectView::Unregister { id });
    }
    if !come.batch.completed {
        let at: int = if id.len() > 0 {
            1
        } else {
            0
        };
        assert(says_done(ending[at]));
    }
    told_in_either(effects, ending);
}

/// Whatever files come, every file that was there is there in the end and begins with all
/// that it held. It has changed only if a longer file came for the very way to it.
pub proof fn what_was_there_is_kept(platform: Platform, disk: Disk, files: Seq<Inbound>)
    requires
        is_disk(disk),
        all_can_come(platform, disk, files),
    ensures
        ({
            let end = all_stored(platform, disk, files);
            &&& is_disk(end)
            &&& forall|way: Seq<Seq<char>>| #[trigger]
                disk.contains_key(way) ==> {
                    &&& end.contains_key(way)
                    &&& disk[way].len() <= end[way].len()
                    &&& end[way].take(disk[way].len() as int) == disk[way]
                    &&& end[way] != disk[way] ==> exists|k: int|
                        0 <= k < files.len() && (#[trigger] files[k]).way(platform) == way
                            && files[k].content.len() > disk[way].len()
                }
        }),
    decreases files.len(),
{
    let end = all_stored(platform, disk, files);
    if files.len() == 0 {
        assert forall|way: Seq<Seq<char>>| #[trigger] disk.contains_key(way) implies end[way].take(
            disk[way].len() as int,
        ) == disk[way] by {
        }
    } else {
        let init = files.drop_last();
        let last = files[files.len() - 1];
        what_was_there_is_kept(platform, disk, init);
        let before = all_stored(platform, disk, init);
        let own = last.way(platform);
        let folder = folder_at(before, own);
        let to = last.goes_to(platform, before);
        let present = last.present(platform, before);
        let whole = last.whole(platform, before);
        let size = last.content.len() as u64;
        assert forall|n: Seq<char>| #[trigger] folder.contains_key(n) implies folder[n].len()
            <= u64::MAX by {
            assert(before.contains_key(own.drop_last().push(n)));
        }
        what_is_there_has_its_length(folder, own.last(), size);
        a_file_finds_its_place(lengths(folder), own.last(), size);
        assert(nth_name(own.last(), 0) == own.last());
        assert(own.drop_last().push(own.last()) == own);
        let name = last.place(platform, before).current();
        assert(before.contains_key(to) == folder.contains_key(name));
        assert(folder.contains_key(name) == lengths(folder).contains_key(name));
        if before.contains_key(to) {
            assert(to == own);
            assert(folder[name] == before[own]);
            assert(before[own].len() < size);
            assert(present == before[own]);
        }
        assert(whole.len() == last.content.len());
        assert forall|way: Seq<Seq<char>>| #[trigger] end.contains_key(way) implies end[way].len()
            <= u64::MAX by {
            if way != to {
                assert(before.contains_key(way));
            }
        }
        assert forall|way: Seq<Seq<char>>| #[trigger] disk.contains_key(way) implies {
            &&& end.contains_key(way)
            &&& disk[way].len() <= end[way].len()
            &&& end[way].take(disk[way].len() as int) == disk[way]
            &&& end[way] != disk[way] ==> exists|k: int|
                0 <= k < files.len() && (#[trigger] files[k]).way(platform) == way
                    && files[k].content.len() > disk[way].len()
        } by {
            assert(before.contains_key(way));
            let n = disk[way].len() as int;
            if way == to {
                assert(end[way] == whole);
                assert(whole.take(n) == before[way].take(n));
                assert(files[files.len() - 1].way(platform) == way);
            } else {
                assert(end[way] == before[way]);
                if end[way] != disk[way] {
                    let k = choose|k: int|
                        0 <= k < init.len() && (#[trigger] init[k]).way(platform) == way
                            && init[k].content.len() > disk[way].len();
                    assert(files[k] == init[k]);
                }
            }
        }
    }
}

/// Where a single file comes, it is where the transfer went, even if it is empty.
pub proof fn a_single_file_is_the_destination(r: Reception, path: Seq<char>)
    requires
        r.stage is Open,
        r.batch.files == 1,
    ensures
        r.after_open(path).batch.destination(r.save_dir) == path,
{
}

/// A transfer that the connection cuts off, in the middle of a file or between two, is
/// shown as failed; a connection that closes before any request shows nothing.
pub proof fn a_cut_transfer_is_shown(r: Reception)
    ensures
        ({
            let failed = EffectView::Failed {
                id: r.batch.id,
                error: ReceiveError::Closed.text(),
            };
            let in_a_file = r.after_failure(ReceiveError::Closed);
            let between = r.after_close();
            &&& in_a_file.0.stage is Done
            &&& between.0.stage is Done
            &&& r.batch.requested ==> in_a_file.1 == seq![failed]
            &&& r.batch.requested && r.batch.meter.done < r.batch.meter.total ==> between.1
                == seq![failed]
            &&& !r.batch.requested ==> in_a_file.1.len() == 0 && between.1.len() == 0
        }),
{
}

/// A request that the user does not answer is declined: the sender is told so and
/// stops, as where the user says no. It is let through only where the user says
/// yes.
pub proof fn an_unanswered_request_is_declined(
    r: Reception,
    s: Sending,
    answer: Option<bool>,
    now: u64,
)
    ensures
        ({
            let (next, effects) = r.after_answer(answer);
            let accepted = EffectView::Send(Message::TransferAccepted);
            let declined = EffectView::Send(Message::TransferDeclined);
            if answer == Some(true) {
                effects.contains(accepted) && !effects.contains(declined)
            } else {
                &&& effects.contains(declined)
                &&& !effects.contains(accepted)
                &&& next.stage is Done
            }
        }),
        s.after_response(Some(Message::TransferDeclined), now).0.stage == SendingStage::Failed(
            SendError::Declined,
        ),
{
    let (next, effects) = r.after_answer(answer);
    let accepted = EffectView::Send(Message::TransferAccepted);
    let declined = EffectView::Send(Message::TransferDeclined);
    if answer == Some(true) {
        assert(effects[0] == accepted);
    } else if answer is None {
        assert(effects[2] == declined);
    } else {
        assert(effects[0] == declined);
    }
}

/// Pieces that are sent are counted, every byte of them.
proof fn pieces_are_counted(s: Sending, pieces: Seq<Seq<u8>>, times: Seq<u64>)
    requires
        s.stage is Piece,
        are_pieces(pieces),
        s.meter.done + joined(pieces).len() <= u64::MAX,
    ensures
        pieces_sent(s, pieces, times).0.meter.done == s.meter.done + joined(pieces).len(),
        pieces_sent(s, pieces, times).0.meter.total == s.meter.total,
    decreases pieces.len(),
{
    if pieces.len() > 0 {
        let init = pieces.drop_last();
        first_pieces(pieces);
        pieces_are_counted(s, init, times);
        only_pieces_are_seen(s, init, times);
        the_sender_covers_what_it_sends(s, init, times);
    }
}

/// When a file has gone out, exactly its bytes have been counted: those that the receiver had,
/// and those that were sent.
pub proof fn a_file_that_went_out_is_counted(s: Sending, file: Outbound)
    requires
        s.stage is Measure,
        s.stage->Measure_file < s.names.len(),
        file.is_read(),
        s.meter.done + file.content.len() <= u64::MAX,
    ensures
        file_sent(s, file).0.meter.done == s.meter.done + file.content.len(),
        file_sent(s, file).0.meter.total == s.meter.total,
{
    let ready = about_to_open(s, file).1;
    let offset = file.offset();
    assert(ready.meter.done == s.meter.done + offset);
    assert(file.content.skip(offset).len() == file.content.len() - offset);
    pieces_are_counted(ready.after_open(), file.pieces, file.times);
    only_pieces_are_seen(ready.after_open(), file.pieces, file.times);
    the_sender_covers_what_it_sends(ready.after_open(), file.pieces, file.times);
}

/// How long `files` are together.
pub open spec fn outbound_size(files: Seq<Outbound>) -> nat
    decreases files.len(),
{
    if files.len() == 0 {
        0
    } else {
        outbound_size(files.drop_last()) + files.last().content.len()
    }
}

/// When the first files have gone out, exactly their bytes have been counted.
proof fn the_first_files_are_counted(s: Sending, files: Seq<Outbound>)
    requires
        s.stage == (SendingStage::Measure { file: 0 }),
        files.len() <= s.names.len(),
        forall|k: int| 0 <= k < files.len() ==> (#[trigger] files[k]).is_read(),
        s.meter.done + outbound_size(files) <= u64::MAX,
    ensures
        files_sent(s, files).0.meter.done == s.meter.done + outbound_size(files),
        files_sent(s, files).0.meter.total == s.meter.total,
    decreases files.len(),
{
    if files.len() > 0 {
        let init = files.drop_last();
        assert forall|k: int| 0 <= k < init.len() implies (#[trigger] init[k]).is_read() by {
            assert(init[k] == files[k]);
        }
        the_first_files_are_counted(s, init);
        if init.len() > 0 {
            the_first_files_are_seen(s, init);
        }
        assert(files[files.len() - 1].is_read());
        a_file_that_went_out_is_counted(files_sent(s, init).0, files.last());
    }
}

/// When a transfer has gone out, everything that was announced has been counted, whatever part
/// of it the receiver had: progress ends at the announced size, which is one hundred percent.
pub proof fn a_transfer_that_went_out_is_counted_whole(
    s: Sending,
    files: Seq<Outbound>,
    now: u64,
)
    requires
        s.stage is Response,
        files.len() == s.names.len(),
        forall|k: int| 0 <= k < files.len() ==> (#[trigger] files[k]).is_read(),
        s.meter.total == outbound_size(files),
    ensures
        ({
            let begun = s.after_response(Some(Message::TransferAccepted), now).0;
            let end = files_sent(begun, files).0;
            &&& end.meter.done == s.meter.total
            &&& end.meter.total == s.meter.total
            &&& percent(end.meter.done as nat, end.meter.total as nat) == 100
        }),
{
    let begun = s.after_response(Some(Message::TransferAccepted), now).0;
    everything_is_one_hundred_percent(s.meter.total as nat);
    if files.len() > 0 {
        the_first_files_are_counted(begun, files);
    }
}

/// Pieces that come are counted, every byte of them.
proof fn pieces_that_come_are_counted(r: Reception, pieces: Seq<Seq<u8>>, times: Seq<u64>)
    requires
        r.stage is Chunk,
        r.stage->Chunk_remaining > 0,
        are_pieces(pieces),
        joined(pieces).len() <= r.stage->Chunk_remaining,
        r.batch.meter.done + joined(pieces).len() <= u64::MAX,
    ensures
        ({
            let end = pieces_received(r, pieces, times).0;
            &&& end.batch.meter.done == r.batch.meter.done + joined(pieces).len()
            &&& end.batch.meter.total == r.batch.meter.total
        }),
    decreases pieces.len(),
{
    if pieces.len() > 0 {
        let init = pieces.drop_last();
        first_pieces(pieces);
        pieces_that_come_are_counted(r, init, times);
        pieces_tell_completion(r, init, times);
        the_receiver_covers_what_it_receives(r, init, times);
    }
}

/// When a file has come in, exactly its bytes have been counted: those that were there, and
/// those that came.
pub proof fn a_file_that_came_in_is_counted(
    r: Reception,
    disk: Disk,
    file: Inbound,
    now: u64,
)
    requires
        r.stage is Message,
        is_disk(disk),
        file.can_come(r.platform, disk),
        r.batch.meter.done + file.content.len() <= u64::MAX,
    ensures
        ({
            let next = file_received(r, disk, file, now).0;
            &&& next.batch.meter.done == r.batch.meter.done + file.content.len()
            &&& next.batch.meter.total == r.batch.meter.total
        }),
{
    let way = file.way(r.platform);
    let folder = folder_at(disk, way);
    let size = file.content.len() as u64;
    let present = file.present(r.platform, disk);
    assert forall|n: Seq<char>| #[trigger] folder.contains_key(n) implies folder[n].len()
        <= u64::MAX by {
        assert(disk.contains_key(way.drop_last().push(n)));
    }
    what_is_there_has_its_length(folder, way.last(), size);
    let asked = Message::FileOffsetRequest { rel_path: file.rel_path, file_size: size };
    let located = r.after_message(asked, now).0.after_locating();
    the_receiver_finds_the_place(located, lengths(folder));
    let found = after_probing(located, lengths(folder)).0;
    let ready = if found.stage is Prefix {
        found.after_prefix(Some(present)).0
    } else {
        found
    };
    assert(ready.batch.meter.done == r.batch.meter.done + present.len());
    let opened = ready.after_open(file.path);
    assert(file.content.skip(present.len() as int).len() == file.content.len() - present.len());
    if opened.stage is Chunk {
        pieces_that_come_are_counted(opened, file.pieces, file.times);
        pieces_tell_completion(opened, file.pieces, file.times);
        the_receiver_covers_what_it_receives(opened, file.pieces, file.times);
    } else if file.pieces.len() > 0 {
        first_pieces(file.pieces);
    }
}

/// How long `files` are together.
pub open spec fn inbound_size(files: Seq<Inbound>) -> nat
    decreases files.len(),
{
    if files.len() == 0 {
        0
    } else {
        inbound_size(files.drop_last()) + files.last().content.len()
    }
}

/// When files have come in, exactly their bytes have been counted.
proof fn the_files_that_came_are_counted(
    r: Reception,
    disk: Disk,
    files: Seq<Inbound>,
    now: u64,
)
    requires
        r.stage is Message,
        is_disk(disk),
        all_can_come(r.platform, disk, files),
        r.batch.meter.done + inbound_size(files) <= u64::MAX,
    ensures
        ({
            let next = files_received(r, disk, files, now).0;
            &&& next.batch.meter.done == r.batch.meter.done + inbound_size(files)
            &&& next.batch.meter.total == r.batch.meter.total
        }),
    decreases files.len(),
{
    if files.len() > 0 {
        let init = files.drop_last();
        the_files_that_came_are_counted(r, disk, init, now);
        the_files_are_received(r, disk, init, now);
        let (before, so_far, effects) = files_received(r, disk, init, now);
        a_file_that_came_in_is_counted(before, so_far, files.last(), now);
    }
}

/// When everything that a request announced has come in, everything that it announced has been
/// counted, whatever part of it was there: progress ends at one hundred percent.
pub proof fn a_transfer_that_came_in_is_counted_whole(
    r: Reception,
    total_size: u64,
    total_files: u32,
    id: Seq<char>,
    files: Seq<Inbound>,
    disk: Disk,
    now: u64,
)
    requires
        r.stage is Message,
        is_disk(disk),
        all_can_come(r.platform, disk, files),
        total_size == inbound_size(files),
    ensures
        ({
            let request = Message::TransferRequest { total_size, total_files, id };
            let begun = r.after_message(request, now).0.after_answer(Some(true)).0;
            let meter = files_received(begun, disk, files, now).0.batch.meter;
            &&& meter.done == total_size
            &&& meter.total == total_size
            &&& percent(meter.done as nat, meter.total as nat) == 100
        }),
{
    let request = Message::TransferRequest { total_size, total_files, id };
    let begun = r.after_message(request, now).0.after_answer(Some(true)).0;
    everything_is_one_hundred_percent(total_size as nat);
    the_files_that_came_are_counted(begun, disk, files, now);
}

} // verus!
