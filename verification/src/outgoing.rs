//! A transfer that goes out, step by step.
//!
//! `Outgoing` says what to do next, and takes what came of it. The other side
//! is asked whether the transfer is welcome. Then, file after file, it says how
//! much it has already; the rest is sent in pieces, and the checksum of the whole
//! file after them.

use crate::channel::CHUNK_SIZE;
use crate::digest::{checksum, digest_view, hex_digest, FileDigest, HASH_LIMIT};
use crate::effects::{all_name, effects_view, Direction, Effect, EffectView};
use crate::progress::Meter;
use crate::protocol::{message_view, Message, TransferProtocol};
use crate::text::{a_number_is_read_back, decimal, decimal_string, number_of, texts_view};
use vstd::prelude::*;
use vstd::string::StringExecFns;

verus! {

/// The files of a transfer: what they are called, and how long they are together.
pub struct FileList {
    names: Vec<String>,
    total_size: u64,
}

impl FileList {
    /// What the files are called.
    pub closed spec fn names(self) -> Seq<Seq<char>> {
        texts_view(self.names@)
    }

    /// How long the files are together.
    pub closed spec fn total_size(self) -> u64 {
        self.total_size
    }

    /// No files.
    pub fn new() -> (list: FileList)
        ensures
            list.names() == Seq::<Seq<char>>::empty(),
            list.total_size() == 0,
    {
        let list = FileList { names: Vec::new(), total_size: 0 };
        proof {
            assert(list.names() == Seq::<Seq<char>>::empty());
        }
        list
    }

    /// Whether a file of `len` bytes can be counted too.
    pub fn has_room(&self, len: u64) -> (b: bool)
        ensures
            b == (self.total_size() + len <= u64::MAX),
    {
        len <= u64::MAX - self.total_size
    }

    /// Puts the file `name` behind the others. Where it is not known how long it
    /// is, it is not counted.
    pub fn add(&mut self, name: String, len: Option<u64>)
        requires
            len matches Some(n) ==> old(self).total_size() + n <= u64::MAX,
        ensures
            final(self).names() == old(self).names().push(name@),
            final(self).total_size() == old(self).total_size() + (match len {
                Some(n) => n,
                None => 0,
            }),
    {
        let ghost before = self.names@;
        self.names.push(name);
        proof {
            assert(texts_view(self.names@) == texts_view(before).push(name@));
        }
        match len {
            Some(n) => {
                self.total_size = self.total_size + n;
            },
            None => {},
        }
    }
}

/// What a transfer of the files `names` is called.
pub open spec fn display_text(names: Seq<Seq<char>>) -> Seq<char> {
    if names.len() == 1 {
        names[0]
    } else {
        decimal(names.len()) + " dosya/klasör"@
    }
}

/// Why a transfer did not go out.
#[derive(Clone, Copy, Debug, PartialEq, Eq, Structural)]
pub enum SendError {
    /// The user cancelled it.
    Cancelled,
    /// The other side declined it.
    Declined,
    /// The other side answered something else.
    UnknownAnswer,
    /// The connection closed before the answer.
    ClosedUnanswered,
    /// The connection closed later.
    Closed,
}

impl SendError {
    /// The message for the user.
    pub open spec fn text(self) -> Seq<char> {
        match self {
            SendError::Cancelled => "İPTAL_EDİLDİ"@,
            SendError::Declined => "ERİŞİM_REDDEDİLDİ"@,
            SendError::UnknownAnswer => "Bilinmeyen yanıt."@,
            SendError::ClosedUnanswered => "Bağlantı beklenmedik şekilde kapandı."@,
            SendError::Closed => "Bağlantı kapandı."@,
        }
    }

    /// The message for the user.
    pub fn message(&self) -> (text: &'static str)
        ensures
            text@ == self.text(),
    {
        match self {
            SendError::Cancelled => "İPTAL_EDİLDİ",
            SendError::Declined => "ERİŞİM_REDDEDİLDİ",
            SendError::UnknownAnswer => "Bilinmeyen yanıt.",
            SendError::ClosedUnanswered => "Bağlantı beklenmedik şekilde kapandı.",
            SendError::Closed => "Bağlantı kapandı.",
        }
    }
}

/// How far the transfer has come. Files are told apart by their number.
pub enum SendingStage {
    /// The answer to the request is to be read.
    Response,
    /// It is to be found out how long the file is.
    Measure { file: nat },
    /// It is to be read how much of the file the other side has.
    Offset { file: nat, size: u64 },
    /// What the other side has of the file is to be hashed.
    Prefix { file: nat, offset: u64 },
    /// The file is to be opened.
    Open { file: nat, offset: u64, covered: Seq<u8> },
    /// A piece of the file is to be sent.
    Piece { file: nat, covered: Seq<u8> },
    /// Everything has been sent.
    Done,
    /// The transfer has failed.
    Failed(SendError),
}

/// A transfer that goes out.
pub struct Sending {
    pub id: Seq<char>,
    pub text: Seq<char>,
    pub names: Seq<Seq<char>>,
    pub meter: Meter,
    pub stage: SendingStage,
}

/// How much of a file of `size` bytes the other side has, as its message says.
pub open spec fn offset_said(message: Message, size: u64) -> u64 {
    match message {
        Message::FileOffsetResponse { offset } => if offset < size {
            offset
        } else {
            size
        },
        _ => 0,
    }
}

impl Sending {
    /// The same transfer at another stage.
    pub open spec fn at(self, stage: SendingStage) -> Sending {
        Sending { stage, ..self }
    }

    /// What the end of the files before file number `file` leads to.
    pub open spec fn from_file(self, file: nat) -> (Sending, Seq<EffectView>) {
        if file < self.names.len() {
            (self.at(SendingStage::Measure { file }), seq![])
        } else {
            (
                self.at(SendingStage::Done),
                seq![
                    EffectView::Send(Message::AllDone),
                    EffectView::Unregister { id: self.id },
                ],
            )
        }
    }

    /// What the answer to the request leads to, or that none has come.
    pub open spec fn after_response(self, message: Option<Message>, now: u64) -> (
        Sending,
        Seq<EffectView>,
    ) {
        match message {
            Some(Message::TransferAccepted) => {
                let begun = Sending {
                    meter: Meter {
                        total: self.meter.total,
                        done: 0,
                        last_pct: 0,
                        last_emit: now,
                        last_emit_bytes: 0,
                    },
                    ..self
                };
                let (next, effects) = begun.from_file(0);
                (next, seq![EffectView::Assigned { id: self.id }] + effects)
            },
            Some(Message::TransferDeclined) => (
                self.at(SendingStage::Failed(SendError::Declined)),
                seq![EffectView::Unregister { id: self.id }],
            ),
            Some(_) => (
                self.at(SendingStage::Failed(SendError::UnknownAnswer)),
                seq![EffectView::Unregister { id: self.id }],
            ),
            None => (self.at(SendingStage::Failed(SendError::ClosedUnanswered)), seq![]),
        }
    }

    /// What it leads to that the user cancels the transfer.
    pub open spec fn after_cancel(self) -> (Sending, Seq<EffectView>) {
        let failed = self.at(SendingStage::Failed(SendError::Cancelled));
        let unregistered = seq![EffectView::Unregister { id: self.id }];
        if self.stage is Response {
            (failed, unregistered)
        } else {
            (
                failed,
                unregistered.push(
                    EffectView::Cancelled {
                        dir: Direction::Out,
                        id: self.id,
                        pct: self.meter.last_pct,
                        text: self.text,
                    },
                ),
            )
        }
    }

    /// What it leads to how long the file is.
    pub open spec fn after_measure(self, size: u64) -> (Sending, Seq<EffectView>) {
        match self.stage {
            SendingStage::Measure { file } => (
                self.at(SendingStage::Offset { file, size }),
                seq![
                    EffectView::Send(
                        Message::FileOffsetRequest {
                            rel_path: self.names[file as int],
                            file_size: size,
                        },
                    ),
                ],
            ),
            _ => (self, seq![]),
        }
    }

    /// What the other side's message leads to on how much of the file it has, or
    /// that none has come.
    pub open spec fn after_offset(self, message: Option<Message>) -> Sending {
        match self.stage {
            SendingStage::Offset { file, size } => match message {
                Some(m) => {
                    let offset = offset_said(m, size);
                    self.at(
                        if offset > 0 {
                            SendingStage::Prefix { file, offset }
                        } else {
                            SendingStage::Open { file, offset, covered: Seq::empty() }
                        },
                    )
                },
                None => self.at(SendingStage::Failed(SendError::Closed)),
            },
            _ => self,
        }
    }

    /// What the bytes lead to that the other side has, or that they could not be
    /// read.
    pub open spec fn after_prefix(self, prefix: Option<Seq<u8>>) -> Sending {
        match self.stage {
            SendingStage::Prefix { file, offset } => {
                let covered = match prefix {
                    Some(bytes) => bytes,
                    None => Seq::empty(),
                };
                Sending {
                    meter: self.meter.counted(offset as nat),
                    stage: SendingStage::Open { file, offset, covered },
                    ..self
                }
            },
            _ => self,
        }
    }

    /// What it leads to that the file is open.
    pub open spec fn after_open(self) -> Sending {
        match self.stage {
            SendingStage::Open { file, covered, .. } => self.at(
                SendingStage::Piece { file, covered },
            ),
            _ => self,
        }
    }

    /// What a piece of the file leads to. An empty one is the end of the file.
    pub open spec fn after_piece(self, piece: Seq<u8>, now: u64) -> (Sending, Seq<EffectView>) {
        match self.stage {
            SendingStage::Piece { file, covered } => if piece.len() == 0 {
                let (next, effects) = self.from_file(file + 1);
                let sum = Message::FileChecksum { checksum: checksum(covered) };
                (next, seq![EffectView::Send(sum)] + effects)
            } else {
                let counted = self.meter.counted(piece.len());
                let due = counted.is_due(now);
                (
                    Sending {
                        meter: if due {
                            counted.told(now)
                        } else {
                            counted
                        },
                        stage: SendingStage::Piece { file, covered: covered + piece },
                        ..self
                    },
                    if due {
                        seq![
                            EffectView::Progress {
                                dir: Direction::Out,
                                id: self.id,
                                text: self.text,
                                tick: counted.tick(now),
                                path: None,
                            },
                        ]
                    } else {
                        seq![]
                    },
                )
            },
            _ => (self, seq![]),
        }
    }
}

/// How far the transfer has come.
enum Stage {
    Response,
    Measure { file: usize },
    Offset { file: usize, size: u64 },
    Prefix { file: usize, offset: u64 },
    Open { file: usize, offset: u64, digest: FileDigest },
    Piece { file: usize, digest: FileDigest },
    Done,
    Failed(SendError),
}

impl Stage {
    spec fn view(self) -> SendingStage {
        match self {
            Stage::Response => SendingStage::Response,
            Stage::Measure { file } => SendingStage::Measure { file: file as nat },
            Stage::Offset { file, size } => SendingStage::Offset { file: file as nat, size },
            Stage::Prefix { file, offset } => SendingStage::Prefix { file: file as nat, offset },
            Stage::Open { file, offset, digest } => SendingStage::Open {
                file: file as nat,
                offset,
                covered: digest@,
            },
            Stage::Piece { file, digest } => SendingStage::Piece {
                file: file as nat,
                covered: digest@,
            },
            Stage::Done => SendingStage::Done,
            Stage::Failed(error) => SendingStage::Failed(error),
        }
    }
}

/// A transfer that goes out.
pub struct Outgoing {
    id: String,
    text: String,
    names: Vec<String>,
    meter: Meter,
    stage: Stage,
}

impl View for Outgoing {
    type V = Sending;

    closed spec fn view(&self) -> Sending {
        Sending {
            id: self.id@,
            text: self.text@,
            names: texts_view(self.names@),
            meter: self.meter,
            stage: self.stage@,
        }
    }
}

/// What is to be done next for a transfer that goes out.
#[derive(Clone, Copy, Debug, PartialEq, Eq, Structural)]
pub enum OutgoingAction {
    /// Read the answer to the request, unless the transfer is cancelled first.
    ReadResponse,
    /// Find out how long the file of this number is.
    Measure(usize),
    /// Read how much of the file the other side has.
    ReadOffset,
    /// Hash so many bytes at the beginning of the file of this number.
    HashPrefix(usize, u64),
    /// Open the file of this number, to read from this byte on.
    Open(usize, u64),
    /// Read a piece of the file of at most so many bytes and send it, unless the
    /// transfer is cancelled first. At the end of the file nothing is sent.
    SendPiece(usize),
    /// Close the connection: everything has been sent.
    Stop,
    /// Close the connection: the transfer has failed.
    Fail(SendError),
}

/// What is to be done next for `sending`.
pub open spec fn next_action(sending: Sending) -> OutgoingAction {
    match sending.stage {
        SendingStage::Response => OutgoingAction::ReadResponse,
        SendingStage::Measure { file } => OutgoingAction::Measure(file as usize),
        SendingStage::Offset { .. } => OutgoingAction::ReadOffset,
        SendingStage::Prefix { file, offset } => OutgoingAction::HashPrefix(
            file as usize,
            offset,
        ),
        SendingStage::Open { file, offset, .. } => OutgoingAction::Open(file as usize, offset),
        SendingStage::Piece { .. } => OutgoingAction::SendPiece(CHUNK_SIZE),
        SendingStage::Done => OutgoingAction::Stop,
        SendingStage::Failed(error) => OutgoingAction::Fail(error),
    }
}

impl Outgoing {
    #[verifier::type_invariant]
    spec fn wf(self) -> bool {
        match self.stage {
            Stage::Measure { file } => file < self.names@.len(),
            Stage::Offset { file, .. } => file < self.names@.len(),
            Stage::Prefix { file, .. } => file < self.names@.len(),
            Stage::Open { file, .. } => file < self.names@.len(),
            Stage::Piece { file, .. } => file < self.names@.len(),
            _ => true,
        }
    }

    /// Begins the transfer `id` of the files in `list`.
    pub fn start(id: String, list: FileList, now: u64) -> (r: (Outgoing, Vec<Effect>))
        ensures
            r.0@ == (Sending {
                id: id@,
                text: display_text(list.names()),
                names: list.names(),
                meter: Meter {
                    total: list.total_size(),
                    done: 0,
                    last_pct: 0,
                    last_emit: now,
                    last_emit_bytes: 0,
                },
                stage: SendingStage::Response,
            }),
            effects_view(r.1@) == seq![
                EffectView::Register { id: id@ },
                EffectView::Initiated {
                    id: id@,
                    text: display_text(list.names()),
                    dir: Direction::Out,
                },
                EffectView::Send(
                    Message::TransferRequest {
                        total_size: list.total_size(),
                        total_files: (list.names().len() % 0x1_0000_0000) as u32,
                        id: id@,
                    },
                ),
            ],
    {
        let names = list.names;
        let text = if names.len() == 1 {
            names[0].clone()
        } else {
            let mut text = decimal_string(names.len() as u64);
            text.append(" dosya/klasör");
            text
        };
        let count: u64 = names.len() as u64 % 0x1_0000_0000;
        let mut effects: Vec<Effect> = Vec::new();
        effects.push(Effect::Register { id: id.clone() });
        effects.push(
            Effect::Initiated { id: id.clone(), text: text.clone(), dir: Direction::Out },
        );
        effects.push(
            Effect::Send(
                TransferProtocol::TransferRequest {
                    total_size: list.total_size,
                    total_files: count as u32,
                    id: id.clone(),
                },
            ),
        );
        let meter = Meter::new(list.total_size, now);
        (Outgoing { id, text, names, meter, stage: Stage::Response }, effects)
    }

    /// What is to be done next.
    pub fn next(&self) -> (action: OutgoingAction)
        ensures
            action == next_action(self@),
            action matches OutgoingAction::Measure(file) ==> file < self@.names.len(),
            action matches OutgoingAction::HashPrefix(file, len) ==> file < self@.names.len(),
            action matches OutgoingAction::Open(file, from) ==> file < self@.names.len(),
    {
        proof {
            use_type_invariant(self);
        }
        match &self.stage {
            Stage::Response => OutgoingAction::ReadResponse,
            Stage::Measure { file } => OutgoingAction::Measure(*file),
            Stage::Offset { .. } => OutgoingAction::ReadOffset,
            Stage::Prefix { file, offset } => OutgoingAction::HashPrefix(*file, *offset),
            Stage::Open { file, offset, .. } => OutgoingAction::Open(*file, *offset),
            Stage::Piece { .. } => OutgoingAction::SendPiece(CHUNK_SIZE),
            Stage::Done => OutgoingAction::Stop,
            Stage::Failed(error) => OutgoingAction::Fail(*error),
        }
    }

    /// Goes on with file number `file`, or ends where there is none.
    fn from_file(self, file: usize) -> (r: (Outgoing, Vec<Effect>))
        ensures
            r.0@ == self@.from_file(file as nat).0,
            effects_view(r.1@) == self@.from_file(file as nat).1,
    {
        let mut effects: Vec<Effect> = Vec::new();
        let ghost expected = self@.from_file(file as nat);
        let stage = if file < self.names.len() {
            Stage::Measure { file }
        } else {
            effects.push(Effect::Send(TransferProtocol::AllDone));
            effects.push(Effect::Unregister { id: self.id.clone() });
            Stage::Done
        };
        proof {
            assert(effects_view(effects@) == expected.1);
        }
        (
            Outgoing { id: self.id, text: self.text, names: self.names, meter: self.meter, stage },
            effects,
        )
    }

    /// The same transfer at another stage.
    fn at(self, stage: Stage) -> (next: Outgoing)
        requires
            (Outgoing { stage, ..self }).wf(),
        ensures
            next@ == self@.at(stage@),
            next.names == self.names,
    {
        Outgoing { id: self.id, text: self.text, names: self.names, meter: self.meter, stage }
    }

    /// The answer to the request has come, or the connection has closed.
    pub fn response(self, message: Option<TransferProtocol>, now: u64) -> (r: (
        Outgoing,
        Vec<Effect>,
    ))
        requires
            self@.stage is Response,
        ensures
            r.0@ == self@.after_response(message_view(message), now).0,
            effects_view(r.1@) == self@.after_response(message_view(message), now).1,
    {
        let ghost expected = self@.after_response(message_view(message), now);
        let mut effects: Vec<Effect> = Vec::new();
        let error = match message {
            Some(TransferProtocol::TransferAccepted) => {
                effects.push(Effect::Assigned { id: self.id.clone() });
                let begun = Outgoing {
                    id: self.id,
                    text: self.text,
                    names: self.names,
                    meter: Meter::new(self.meter.total, now),
                    stage: Stage::Response,
                };
                let (next, more) = begun.from_file(0);
                let mut more = more;
                effects.append(&mut more);
                proof {
                    assert(effects_view(effects@) == expected.1);
                }
                return (next, effects);
            },
            Some(TransferProtocol::TransferDeclined) => SendError::Declined,
            Some(_) => SendError::UnknownAnswer,
            None => SendError::ClosedUnanswered,
        };
        if error != SendError::ClosedUnanswered {
            effects.push(Effect::Unregister { id: self.id.clone() });
        }
        proof {
            assert(effects_view(effects@) == expected.1);
        }
        (self.at(Stage::Failed(error)), effects)
    }

    /// The user has cancelled the transfer.
    pub fn cancelled(self) -> (r: (Outgoing, Vec<Effect>))
        requires
            self@.stage is Response || self@.stage is Piece,
        ensures
            r.0@ == self@.after_cancel().0,
            effects_view(r.1@) == self@.after_cancel().1,
    {
        let ghost expected = self@.after_cancel();
        let mut effects: Vec<Effect> = Vec::new();
        effects.push(Effect::Unregister { id: self.id.clone() });
        match &self.stage {
            Stage::Response => {},
            _ => {
                effects.push(
                    Effect::Cancelled {
                        dir: Direction::Out,
                        id: self.id.clone(),
                        pct: self.meter.last_pct,
                        text: self.text.clone(),
                    },
                );
            },
        }
        proof {
            assert(effects_view(effects@) == expected.1);
        }
        (self.at(Stage::Failed(SendError::Cancelled)), effects)
    }

    /// The file is `size` bytes long.
    pub fn measured(self, size: u64) -> (r: (Outgoing, Vec<Effect>))
        requires
            self@.stage is Measure,
        ensures
            r.0@ == self@.after_measure(size).0,
            effects_view(r.1@) == self@.after_measure(size).1,
    {
        proof {
            use_type_invariant(&self);
        }
        let ghost expected = self@.after_measure(size);
        let mut effects: Vec<Effect> = Vec::new();
        match self.stage {
            Stage::Measure { file } => {
                let rel_path = self.names[file].clone();
                effects.push(
                    Effect::Send(TransferProtocol::FileOffsetRequest { rel_path, file_size: size }),
                );
                proof {
                    assert(effects_view(effects@) == expected.1);
                }
                (self.at(Stage::Offset { file, size }), effects)
            },
            _ => (self, effects),
        }
    }

    /// The other side has said how much of the file it has, or the connection has
    /// closed.
    pub fn offset(self, message: Option<TransferProtocol>) -> (next: Outgoing)
        requires
            self@.stage is Offset,
        ensures
            next@ == self@.after_offset(message_view(message)),
    {
        proof {
            use_type_invariant(&self);
        }
        match self.stage {
            Stage::Offset { file, size } => {
                let offset: u64 = match message {
                    Some(TransferProtocol::FileOffsetResponse { offset }) => if offset < size {
                        offset
                    } else {
                        size
                    },
                    Some(_) => 0,
                    None => {
                        return self.at(Stage::Failed(SendError::Closed));
                    },
                };
                if offset > 0 {
                    self.at(Stage::Prefix { file, offset })
                } else {
                    self.at(Stage::Open { file, offset, digest: FileDigest::new() })
                }
            },
            _ => self,
        }
    }

    /// Whether the count of the transfer has room for `n` more bytes.
    pub fn has_room(&self, n: u64) -> (b: bool)
        ensures
            b == (self@.meter.done + n <= u64::MAX),
    {
        n <= u64::MAX - self.meter.done
    }

    /// What the other side has of the file has been hashed, or could not be read.
    pub fn prefix(self, digest: Option<FileDigest>) -> (next: Outgoing)
        requires
            self@.stage is Prefix,
            self@.meter.done + self@.stage->Prefix_offset <= u64::MAX,
        ensures
            next@ == self@.after_prefix(digest_view(digest)),
    {
        proof {
            use_type_invariant(&self);
        }
        let digest = match digest {
            Some(digest) => digest,
            None => FileDigest::new(),
        };
        let mut meter = self.meter;
        let stage = match self.stage {
            Stage::Prefix { file, offset } => {
                meter.skip(offset);
                Stage::Open { file, offset, digest }
            },
            stage => stage,
        };
        Outgoing { id: self.id, text: self.text, names: self.names, meter, stage }
    }

    /// The file is open.
    pub fn opened(self) -> (next: Outgoing)
        requires
            self@.stage is Open,
        ensures
            next@ == self@.after_open(),
    {
        proof {
            use_type_invariant(&self);
        }
        let stage = match self.stage {
            Stage::Open { file, digest, .. } => Stage::Piece { file, digest },
            stage => stage,
        };
        Outgoing { id: self.id, text: self.text, names: self.names, meter: self.meter, stage }
    }

    /// Whether the digest of the present file has room for `n` more bytes.
    pub fn can_cover(&self, n: u64) -> (b: bool)
        ensures
            b == (self@.stage is Piece ==> self@.stage->Piece_covered.len() + n < HASH_LIMIT),
    {
        match &self.stage {
            Stage::Piece { digest, .. } => n < HASH_LIMIT - digest.len(),
            _ => true,
        }
    }

    /// A piece of the file has been read and, unless it is empty, sent.
    pub fn piece(self, piece: &[u8], now: u64) -> (r: (Outgoing, Vec<Effect>))
        requires
            self@.stage is Piece,
            piece@.len() <= CHUNK_SIZE,
            self@.meter.done + piece@.len() <= u64::MAX,
            self@.stage->Piece_covered.len() + piece@.len() < HASH_LIMIT,
        ensures
            r.0@ == self@.after_piece(piece@, now).0,
            effects_view(r.1@) == self@.after_piece(piece@, now).1,
    {
        proof {
            use_type_invariant(&self);
        }
        let ghost expected = self@.after_piece(piece@, now);
        let mut effects: Vec<Effect> = Vec::new();
        let mut meter = self.meter;
        let mut ended: Option<usize> = None;
        let stage = match self.stage {
            Stage::Piece { file, digest } => {
                if piece.len() == 0 {
                    let checksum = hex_digest(digest);
                    effects.push(Effect::Send(TransferProtocol::FileChecksum { checksum }));
                    proof {
                        assert(file < self.names.len());
                    }
                    ended = Some(file + 1);
                    Stage::Done
                } else {
                    match meter.advance(piece.len() as u64, now) {
                        Some(tick) => {
                            effects.push(
                                Effect::Progress {
                                    dir: Direction::Out,
                                    id: self.id.clone(),
                                    text: self.text.clone(),
                                    tick,
                                    path: None,
                                },
                            );
                        },
                        None => {},
                    }
                    Stage::Piece { file, digest: digest.with(piece) }
                }
            },
            stage => stage,
        };
        let next = Outgoing { id: self.id, text: self.text, names: self.names, meter, stage };
        match ended {
            Some(file) => {
                let (next, more) = next.from_file(file);
                let mut more = more;
                effects.append(&mut more);
                proof {
                    assert(effects_view(effects@) == expected.1);
                }
                (next, effects)
            },
            None => {
                proof {
                    assert(effects_view(effects@) == expected.1);
                }
                (next, effects)
            },
        }
    }
}

/// The byte from which a file is opened is the byte that the receiver said, or the end of the
/// file where it said more than the file has: no byte in front of it goes out again, and none
/// from it on is passed over. As many bytes are hashed as the receiver has, as many are
/// counted as done, and the checksum goes on from them. Where the receiver has nothing, the
/// file goes out from its beginning.
pub proof fn a_file_is_opened_where_the_receiver_said(
    s: Sending,
    said: u64,
    prefix: Option<Seq<u8>>,
)
    requires
        s.stage is Offset,
        s.stage->Offset_file <= usize::MAX,
        s.meter.done + s.stage->Offset_size <= u64::MAX,
    ensures
        ({
            let file = s.stage->Offset_file as usize;
            let size = s.stage->Offset_size;
            let from = if said <= size {
                said
            } else {
                size
            };
            let answered = s.after_offset(Some(Message::FileOffsetResponse { offset: said }));
            let hashed = answered.after_prefix(prefix);
            &&& answered.id == s.id && answered.text == s.text && answered.names == s.names
            &&& answered.meter == s.meter
            &&& from == 0 ==> {
                &&& next_action(answered) == OutgoingAction::Open(file, 0)
                &&& answered.stage->Open_covered.len() == 0
                &&& next_action(answered.after_open()) is SendPiece
            }
            &&& from > 0 ==> {
                &&& next_action(answered) == OutgoingAction::HashPrefix(file, from)
                &&& next_action(hashed) == OutgoingAction::Open(file, from)
                &&& hashed.id == s.id && hashed.text == s.text && hashed.names == s.names
                &&& hashed.meter.done == s.meter.done + from
                &&& hashed.meter.total == s.meter.total
                &&& hashed.meter.last_pct == s.meter.last_pct
                &&& hashed.meter.last_emit == s.meter.last_emit
                &&& hashed.meter.last_emit_bytes == s.meter.last_emit_bytes
                &&& prefix matches Some(bytes) ==> hashed.stage->Open_covered == bytes
                &&& prefix is None ==> hashed.stage->Open_covered.len() == 0
                &&& next_action(hashed.after_open()) is SendPiece
                &&& hashed.after_open().stage->Piece_covered == hashed.stage->Open_covered
                &&& hashed.after_open().stage->Piece_file == s.stage->Offset_file
                &&& hashed.after_open().meter == hashed.meter
            }
        }),
{
}

/// Where the receiver says something else than how much it has, the file goes out from its
/// beginning; where it says nothing any more, the transfer fails.
pub proof fn a_file_is_opened_at_its_beginning_otherwise(s: Sending, message: Option<Message>)
    requires
        s.stage is Offset,
        s.stage->Offset_file <= usize::MAX,
        !(message matches Some(Message::FileOffsetResponse { .. })),
    ensures
        ({
            let answered = s.after_offset(message);
            &&& answered.id == s.id && answered.text == s.text && answered.names == s.names
            &&& answered.meter == s.meter
            &&& message is Some ==> {
                &&& next_action(answered) == OutgoingAction::Open(
                    s.stage->Offset_file as usize,
                    0,
                )
                &&& answered.stage->Open_covered.len() == 0
            }
            &&& message is None ==> next_action(answered) == OutgoingAction::Fail(
                SendError::Closed,
            )
        }),
{
}

/// The receiver is asked for the file that is next, under its own name and with its length.
pub proof fn a_file_is_asked_for_under_its_name(s: Sending, size: u64)
    requires
        s.stage is Measure,
        s.stage->Measure_file < s.names.len(),
    ensures
        ({
            let (next, effects) = s.after_measure(size);
            let file = s.stage->Measure_file;
            &&& effects.len() == 1
            &&& effects[0] is Send
            &&& effects[0]->Send_0 is FileOffsetRequest
            &&& effects[0]->Send_0->rel_path == s.names[file as int]
            &&& effects[0]->Send_0->file_size == size
            &&& next_action(next) is ReadOffset
            &&& next.stage->Offset_file == file
            &&& next.stage->Offset_size == size
            &&& next.id == s.id && next.text == s.text && next.names == s.names
            &&& next.meter == s.meter
        }),
{
}

/// A transfer that is accepted begins with its first file, or is over where it has none. One
/// that is not accepted fails, and the user learns why. Whichever way, nothing stays
/// registered once the answer has ended the transfer.
pub proof fn the_answer_decides(s: Sending, message: Option<Message>, now: u64)
    requires
        s.stage is Response,
    ensures
        ({
            let (next, effects) = s.after_response(message, now);
            &&& next.id == s.id && next.text == s.text && next.names == s.names
            &&& next.meter.total == s.meter.total
            &&& all_name(effects, s.id)
            &&& message matches Some(Message::TransferAccepted) ==> {
                &&& effects[0] == (EffectView::Assigned { id: s.id })
                &&& next.meter.done == 0 && next.meter.last_pct == 0
                &&& next.meter.last_emit == now && next.meter.last_emit_bytes == 0
                &&& s.names.len() > 0 ==> effects.len() == 1 && next_action(next)
                    == OutgoingAction::Measure(0)
                &&& s.names.len() == 0 ==> {
                    &&& effects.len() == 3
                    &&& effects[1] == EffectView::Send(Message::AllDone)
                    &&& effects[2] == (EffectView::Unregister { id: s.id })
                    &&& next_action(next) is Stop
                }
            }
            &&& !(message matches Some(Message::TransferAccepted)) ==> {
                &&& next_action(next) is Fail
                &&& message is Some ==> effects.len() == 1 && effects[0] == (
                EffectView::Unregister { id: s.id })
                &&& message is None ==> effects.len() == 0
                &&& next_action(next)->Fail_0 == SendError::Declined <==> message == Some(
                    Message::TransferDeclined,
                )
                &&& next_action(next)->Fail_0 == SendError::ClosedUnanswered <==> message is None
                &&& next_action(next)->Fail_0 is Declined || next_action(
                    next,
                )->Fail_0 is ClosedUnanswered || next_action(next)->Fail_0 is UnknownAnswer
            }
        }),
{
}

/// A piece that has been sent is counted, and is covered by the checksum behind what was
/// covered before. The user sees it at most once, and if and only if it is time to.
pub proof fn a_piece_is_counted_and_covered(s: Sending, piece: Seq<u8>, now: u64)
    requires
        s.stage is Piece,
        piece.len() > 0,
        s.meter.done + piece.len() <= u64::MAX,
    ensures
        ({
            let (next, effects) = s.after_piece(piece, now);
            let counted = s.meter.counted(piece.len());
            &&& next_action(next) is SendPiece
            &&& next.id == s.id && next.text == s.text && next.names == s.names
            &&& next.stage->Piece_file == s.stage->Piece_file
            &&& next.stage->Piece_covered == s.stage->Piece_covered + piece
            &&& next.meter.done == s.meter.done + piece.len()
            &&& next.meter.total == s.meter.total
            &&& effects.len() == 1 <==> counted.is_due(now)
            &&& effects.len() <= 1
            &&& effects.len() == 1 ==> {
                &&& effects[0] is Progress
                &&& effects[0]->Progress_dir is Out
                &&& effects[0]->Progress_id == s.id
                &&& effects[0]->Progress_text == s.text
                &&& effects[0]->tick == counted.tick(now)
                &&& effects[0]->path is None
                &&& next.meter.last_pct == effects[0]->tick.pct
                &&& next.meter.last_emit == now
                &&& next.meter.last_emit_bytes == s.meter.done + piece.len()
            }
            &&& effects.len() == 0 ==> {
                &&& next.meter.last_pct == s.meter.last_pct
                &&& next.meter.last_emit == s.meter.last_emit
                &&& next.meter.last_emit_bytes == s.meter.last_emit_bytes
            }
        }),
{
}

/// Behind the last piece of a file goes the checksum of everything that was covered, and
/// nothing else. The next file follows, or the word that all is done, and the transfer can be
/// cancelled no longer.
pub proof fn behind_a_file_goes_its_checksum(s: Sending, now: u64)
    requires
        s.stage is Piece,
        s.stage->Piece_file + 1 <= usize::MAX,
    ensures
        ({
            let (next, effects) = s.after_piece(seq![], now);
            let file = s.stage->Piece_file;
            &&& next.id == s.id && next.text == s.text && next.names == s.names
            &&& next.meter == s.meter
            &&& effects[0] is Send
            &&& effects[0]->Send_0 is FileChecksum
            &&& effects[0]->Send_0->checksum == checksum(s.stage->Piece_covered)
            &&& file + 1 < s.names.len() ==> effects.len() == 1 && next_action(next)
                == OutgoingAction::Measure((file + 1) as usize)
            &&& file + 1 >= s.names.len() ==> {
                &&& effects.len() == 3
                &&& effects[1] == EffectView::Send(Message::AllDone)
                &&& effects[2] == (EffectView::Unregister { id: s.id })
                &&& next_action(next) is Stop
            }
        }),
{
}

/// A transfer that the user cancels fails as cancelled, under its own identifier and text, and
/// with the percentage that was told last. Where it had not been accepted yet there is nothing
/// to show.
pub proof fn a_cancelled_transfer_fails(s: Sending)
    ensures
        ({
            let (next, effects) = s.after_cancel();
            &&& next.id == s.id && next.text == s.text && next.names == s.names
            &&& next.meter == s.meter
            &&& next_action(next) == OutgoingAction::Fail(SendError::Cancelled)
            &&& effects[0] == (EffectView::Unregister { id: s.id })
            &&& s.stage is Response ==> effects.len() == 1
            &&& !(s.stage is Response) ==> {
                &&& effects.len() == 2
                &&& effects[1] is Cancelled
                &&& effects[1]->Cancelled_dir is Out
                &&& effects[1]->Cancelled_id == s.id
                &&& effects[1]->pct == s.meter.last_pct
                &&& effects[1]->Cancelled_text == s.text
            }
        }),
{
}

/// A transfer of one file is called like the file. Any other is called by the number of its
/// files, which can be read off.
pub proof fn a_transfer_is_called_by_its_files(names: Seq<Seq<char>>)
    ensures
        names.len() == 1 ==> display_text(names) == names[0],
        names.len() != 1 ==> {
            let text = display_text(names);
            let digits = text.len() - 13;
            &&& digits > 0
            &&& number_of(text.take(digits)) == names.len()
            &&& text.skip(digits) == seq![
                ' ',
                'd',
                'o',
                's',
                'y',
                'a',
                '/',
                'k',
                'l',
                'a',
                's',
                'ö',
                'r',
            ]
        },
{
    if names.len() != 1 {
        reveal_strlit(" dosya/klasör");
        a_number_is_read_back(names.len());
        let text = display_text(names);
        let digits = text.len() - 13;
        assert(text.take(digits) == decimal(names.len()));
        assert(text.skip(digits) == " dosya/klasör"@);
    }
}

/// No two reasons why a transfer did not go out read the same.
pub proof fn no_two_reasons_read_the_same(a: SendError, b: SendError)
    requires
        a.text() == b.text(),
    ensures
        a == b,
{
    reveal_strlit("İPTAL_EDİLDİ");
    reveal_strlit("ERİŞİM_REDDEDİLDİ");
    reveal_strlit("Bilinmeyen yanıt.");
    reveal_strlit("Bağlantı beklenmedik şekilde kapandı.");
    reveal_strlit("Bağlantı kapandı.");
    assert("İPTAL_EDİLDİ"@.len() == 12);
    assert("Bağlantı beklenmedik şekilde kapandı."@.len() == 37);
    assert("ERİŞİM_REDDEDİLDİ"@[0] == 'E');
    assert("Bilinmeyen yanıt."@[0] == 'B');
    assert("Bağlantı kapandı."@[0] == 'B');
    assert("Bilinmeyen yanıt."@[1] == 'i');
    assert("Bağlantı kapandı."@[1] == 'a');
}

/// What is to be done next fits the stage: the file that is named is the file that the stage is
/// at, the byte is the byte of the stage, and a piece has at most four mebibytes.
pub proof fn the_next_step_fits_the_stage(s: Sending)
    ensures
        next_action(s) is ReadResponse <==> s.stage is Response,
        next_action(s) is Measure <==> s.stage is Measure,
        s.stage is Measure && s.stage->Measure_file <= usize::MAX ==> next_action(s)->Measure_0
            == s.stage->Measure_file,
        next_action(s) is ReadOffset <==> s.stage is Offset,
        next_action(s) is HashPrefix <==> s.stage is Prefix,
        s.stage is Prefix && s.stage->Prefix_file <= usize::MAX ==> next_action(s)->HashPrefix_0
            == s.stage->Prefix_file,
        s.stage is Prefix ==> next_action(s)->HashPrefix_1 == s.stage->Prefix_offset,
        next_action(s) is Open <==> s.stage is Open,
        s.stage is Open && s.stage->Open_file <= usize::MAX ==> next_action(s)->Open_0
            == s.stage->Open_file,
        s.stage is Open ==> next_action(s)->Open_1 == s.stage->Open_offset,
        next_action(s) is SendPiece <==> s.stage is Piece,
        s.stage is Piece ==> next_action(s)->SendPiece_0 == 4_194_304,
        next_action(s) is Stop <==> s.stage is Done,
        next_action(s) is Fail <==> s.stage is Failed,
        s.stage is Failed ==> next_action(s)->Fail_0 == s.stage->Failed_0,
{
}

} // verus!
