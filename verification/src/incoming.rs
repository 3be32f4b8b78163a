//! A transfer that comes in, step by step.
//!
//! `Incoming` says what to do next, and takes what came of it. A connection
//! brings a request, which the user answers, and then file after file: its
//! place is found, what is there of it already is left as it is, the rest is
//! received, and its checksum is compared.

use crate::digest::{checksum, digest_view, hex_digest, FileDigest, HASH_LIMIT};
use crate::effects::{all_name, effects_view, text_view, Direction, Effect, EffectView};
use crate::naming::{parts_of, safe_parts, PlaceAt, Placement, Placing};
use crate::pending::taken_out;
use crate::progress::{minus, Meter};
use crate::protocol::{message_view, Message, TransferProtocol};
use crate::shell::Platform;
use crate::size::{format_size, size_text};
use crate::text::{a_number_is_read_back, decimal, decimal_string, number_of, texts_view};
use vstd::prelude::*;
use vstd::string::StringExecFns;

verus! {

/// What a transfer of so many files is called.
pub open spec fn label_text(files: u32) -> Seq<char> {
    decimal(files as nat) + " adet içerik"@
}

/// What the user is asked.
pub open spec fn request_text(files: u32, size: u64) -> Seq<char> {
    decimal(files as nat) + " dosya ("@ + size_text(size as nat)
        + ") göndermek istiyor. Kabul ediyor musunuz?"@
}

/// What the user is told at the end.
pub open spec fn done_text(label: Seq<char>, warned: bool) -> Seq<char> {
    if warned {
        label + " indirildi (bazı dosyalarda bütünlük uyarısı var)"@
    } else {
        label + " indirildi!"@
    }
}

/// Why a transfer that came in failed.
#[derive(Clone, Copy, Debug, PartialEq, Eq, Structural)]
pub enum ReceiveError {
    /// The connection closed before everything had come.
    Closed,
    /// The sender's name for a file leads to no file in the download folder.
    NoWay,
    /// Other files have every name that the file could have.
    NoPlace,
}

impl ReceiveError {
    /// The message for the user.
    pub open spec fn text(self) -> Seq<char> {
        match self {
            ReceiveError::Closed => "Bağlantı beklenmedik şekilde kapandı."@,
            ReceiveError::NoWay => "Geçersiz dosya yolu."@,
            ReceiveError::NoPlace => "Dosya için boş bir ad bulunamadı."@,
        }
    }

    /// The message for the user.
    pub fn message(&self) -> (text: &'static str)
        ensures
            text@ == self.text(),
    {
        match self {
            ReceiveError::Closed => "Bağlantı beklenmedik şekilde kapandı.",
            ReceiveError::NoWay => "Geçersiz dosya yolu.",
            ReceiveError::NoPlace => "Dosya için boş bir ad bulunamadı.",
        }
    }
}

/// What is known of the transfer as a whole.
pub struct BatchView {
    /// Whether a request has come.
    pub requested: bool,
    pub id: Seq<char>,
    pub files: u32,
    pub label: Seq<char>,
    pub meter: Meter,
    /// Where the last file was opened.
    pub last_saved: Option<Seq<char>>,
    /// Whether the user has been told that the transfer is complete.
    pub completed: bool,
    /// Whether some file did not arrive as it was sent.
    pub warned: bool,
}

/// How far the transfer has come.
pub enum ReceptionStage {
    /// A message is to be read.
    Message,
    /// The user is to be asked.
    Answer,
    /// A file is coming, and the way to it is to be found.
    Locate { rel_path: Seq<char>, size: u64 },
    /// Its place is being looked for.
    Place { rel_path: Seq<char>, placement: Placement },
    /// What is there of it is to be hashed.
    Prefix { rel_path: Seq<char>, placement: Placement, offset: u64 },
    /// It is to be opened.
    Open { rel_path: Seq<char>, placement: Placement, offset: u64, covered: Seq<u8> },
    /// So many bytes of it are still to come.
    Chunk { rel_path: Seq<char>, path: Seq<char>, remaining: u64, covered: Seq<u8> },
    /// Its checksum is to be read.
    Checksum { rel_path: Seq<char>, covered: Seq<u8> },
    /// The connection is done with.
    Done,
}

/// A transfer that comes in.
pub struct Reception {
    /// The system that the files are saved on.
    pub platform: Platform,
    pub save_dir: Seq<char>,
    pub batch: BatchView,
    pub stage: ReceptionStage,
}

impl BatchView {
    /// Where the transfer went, as it is shown to the user.
    pub open spec fn destination(self, save_dir: Seq<char>) -> Seq<char> {
        if self.files == 1 {
            match self.last_saved {
                Some(path) => path,
                None => Seq::empty(),
            }
        } else {
            save_dir
        }
    }
}

impl Reception {
    /// The same transfer at another stage.
    pub open spec fn at(self, stage: ReceptionStage) -> Reception {
        Reception { stage, ..self }
    }

    /// What a failure leads to: the connection is done with, and the user sees it if a
    /// request has come.
    pub open spec fn after_failure(self, error: ReceiveError) -> (Reception, Seq<EffectView>) {
        (
            self.at(ReceptionStage::Done),
            if self.batch.requested {
                seq![EffectView::Failed { id: self.batch.id, error: error.text() }]
            } else {
                seq![]
            },
        )
    }

    /// Whether everything that was announced has come, and the user knows it.
    pub open spec fn is_complete(self) -> bool {
        self.batch.completed && self.batch.meter.done >= self.batch.meter.total
    }

    /// What it leads to that the connection closes in place of a message.
    pub open spec fn after_close(self) -> (Reception, Seq<EffectView>) {
        if self.is_complete() {
            (self.at(ReceptionStage::Done), seq![])
        } else {
            self.after_failure(ReceiveError::Closed)
        }
    }

    /// What a message leads to.
    pub open spec fn after_message(self, message: Message, now: u64) -> (
        Reception,
        Seq<EffectView>,
    ) {
        let batch = self.batch;
        match message {
            Message::TransferRequest { total_size, total_files, id } => (
                Reception {
                    batch: BatchView {
                        requested: true,
                        id,
                        files: total_files,
                        label: label_text(total_files),
                        meter: Meter {
                            total: total_size,
                            done: 0,
                            last_pct: 0,
                            last_emit: now,
                            last_emit_bytes: 0,
                        },
                        last_saved: None,
                        completed: false,
                        warned: false,
                    },
                    stage: ReceptionStage::Answer,
                    ..self
                },
                seq![
                    EffectView::Register { id },
                    EffectView::Await { id },
                    EffectView::ShowWindow,
                    EffectView::Notify {
                        title: "VeriShare — Gelen İstek"@,
                        body: request_text(total_files, total_size),
                    },
                    EffectView::Request { id, total_size, total_files },
                ],
            ),
            Message::FileOffsetRequest { rel_path, file_size } => if parts_of(
                self.platform,
                rel_path,
            ).len() > 0 {
                (self.at(ReceptionStage::Locate { rel_path, size: file_size }), seq![])
            } else {
                self.after_failure(ReceiveError::NoWay)
            },
            Message::AllDone => (
                self.at(ReceptionStage::Done),
                (if batch.id.len() > 0 {
                    seq![EffectView::Unregister { id: batch.id }]
                } else {
                    seq![]
                }) + (if !batch.completed {
                    seq![
                        EffectView::Complete {
                            id: batch.id,
                            text: batch.label,
                            destination: batch.destination(self.save_dir),
                        },
                    ]
                } else {
                    seq![]
                }) + seq![
                    EffectView::Notify {
                        title: "VeriShare"@,
                        body: done_text(batch.label, batch.warned),
                    },
                ],
            ),
            Message::TransferAccepted => (self, seq![]),
            Message::TransferDeclined => (self, seq![]),
            Message::FileOffsetResponse { .. } => (self, seq![]),
            Message::FileChecksum { .. } => (self, seq![]),
        }
    }

    /// What the user's answer leads to. No answer is a no.
    pub open spec fn after_answer(self, answer: Option<bool>) -> (Reception, Seq<EffectView>) {
        let id = self.batch.id;
        let expired = if answer is None {
            seq![EffectView::Forget { id }, EffectView::Expired { id }]
        } else {
            seq![]
        };
        if answer == Some(true) {
            (
                self.at(ReceptionStage::Message),
                expired + seq![
                    EffectView::Send(Message::TransferAccepted),
                    EffectView::Initiated { id, text: self.batch.label, dir: Direction::In },
                ],
            )
        } else {
            (
                self.at(ReceptionStage::Done),
                expired + seq![
                    EffectView::Send(Message::TransferDeclined),
                    EffectView::Unregister { id },
                ],
            )
        }
    }

    /// What it leads to that the folders on the way are there. The file would be called
    /// by the last part of its way.
    pub open spec fn after_locating(self) -> Reception {
        match self.stage {
            ReceptionStage::Locate { rel_path, size } => self.at(
                ReceptionStage::Place {
                    rel_path,
                    placement: Placement {
                        name: parts_of(self.platform, rel_path).last(),
                        size,
                        at: PlaceAt::First,
                    },
                },
            ),
            _ => self,
        }
    }

    /// What it leads to how long the file of the present name is, if there is one.
    pub open spec fn after_probe(self, existing: Option<u64>) -> (Reception, Seq<EffectView>) {
        match self.stage {
            ReceptionStage::Place { rel_path, placement } => {
                let placement = placement.after(existing);
                match placement.at {
                    PlaceAt::Settled(_, offset) => if offset > 0 {
                        (
                            self.at(ReceptionStage::Prefix { rel_path, placement, offset }),
                            seq![],
                        )
                    } else {
                        (
                            self.at(
                                ReceptionStage::Open {
                                    rel_path,
                                    placement,
                                    offset,
                                    covered: Seq::empty(),
                                },
                            ),
                            seq![EffectView::Send(Message::FileOffsetResponse { offset })],
                        )
                    },
                    PlaceAt::Full => self.after_failure(ReceiveError::NoPlace),
                    _ => (self.at(ReceptionStage::Place { rel_path, placement }), seq![]),
                }
            },
            _ => (self, seq![]),
        }
    }

    /// What the bytes lead to that are there already, or that they could not be
    /// read.
    pub open spec fn after_prefix(self, prefix: Option<Seq<u8>>) -> (
        Reception,
        Seq<EffectView>,
    ) {
        match self.stage {
            ReceptionStage::Prefix { rel_path, placement, offset } => {
                let covered = match prefix {
                    Some(bytes) => bytes,
                    None => Seq::empty(),
                };
                let meter = self.batch.meter.counted(offset as nat);
                (
                    Reception {
                        batch: BatchView { meter, ..self.batch },
                        stage: ReceptionStage::Open { rel_path, placement, offset, covered },
                        ..self
                    },
                    seq![EffectView::Send(Message::FileOffsetResponse { offset })],
                )
            },
            _ => (self, seq![]),
        }
    }

    /// What it leads to that the file is open at `path`.
    pub open spec fn after_open(self, path: Seq<char>) -> Reception {
        match self.stage {
            ReceptionStage::Open { rel_path, placement, offset, covered } => {
                let remaining = minus(placement.size, offset);
                Reception {
                    batch: BatchView { last_saved: Some(path), ..self.batch },
                    stage: if remaining > 0 {
                        ReceptionStage::Chunk { rel_path, path, remaining, covered }
                    } else {
                        ReceptionStage::Checksum { rel_path, covered }
                    },
                    ..self
                }
            },
            _ => self,
        }
    }

    /// What a piece of the file leads to.
    pub open spec fn after_chunk(self, chunk: Seq<u8>, now: u64) -> (
        Reception,
        Seq<EffectView>,
    ) {
        match self.stage {
            ReceptionStage::Chunk { rel_path, path, remaining, covered } => {
                let batch = self.batch;
                let counted = batch.meter.counted(chunk.len());
                let due = counted.is_due(now);
                let tick = counted.tick(now);
                let left = minus(remaining, chunk.len() as u64);
                let covered = covered + chunk;
                (
                    Reception {
                        batch: BatchView {
                            meter: if due {
                                counted.told(now)
                            } else {
                                counted
                            },
                            completed: batch.completed || (due && tick.is_done),
                            ..batch
                        },
                        stage: if left > 0 {
                            ReceptionStage::Chunk { rel_path, path, remaining: left, covered }
                        } else {
                            ReceptionStage::Checksum { rel_path, covered }
                        },
                        ..self
                    },
                    if due {
                        seq![
                            EffectView::Progress {
                                dir: Direction::In,
                                id: batch.id,
                                text: batch.label,
                                tick,
                                path: if tick.is_done {
                                    Some(
                                        if batch.files == 1 {
                                            path
                                        } else {
                                            self.save_dir
                                        },
                                    )
                                } else {
                                    None
                                },
                            },
                        ]
                    } else {
                        seq![]
                    },
                )
            },
            _ => (self, seq![]),
        }
    }

    /// What it leads to that the user cancels in the middle of a file.
    pub open spec fn after_cancel(self) -> (Reception, Seq<EffectView>) {
        (
            self.at(ReceptionStage::Done),
            seq![
                EffectView::Cancelled {
                    dir: Direction::In,
                    id: self.batch.id,
                    pct: self.batch.meter.last_pct,
                    text: self.batch.label,
                },
            ],
        )
    }

    /// What the message leads to that stands where the checksum should. None
    /// stands for a connection that has closed, and for what is no message.
    pub open spec fn after_checksum(self, message: Option<Message>) -> (
        Reception,
        Seq<EffectView>,
    ) {
        match self.stage {
            ReceptionStage::Checksum { rel_path, covered } => {
                let ended = self.at(ReceptionStage::Message);
                match message {
                    Some(Message::FileChecksum { checksum: sum }) => if sum != checksum(covered) {
                        (
                            Reception { batch: BatchView { warned: true, ..self.batch }, ..ended },
                            seq![EffectView::Warning { id: self.batch.id, file: rel_path }],
                        )
                    } else {
                        (ended, seq![])
                    },
                    _ => (ended, seq![]),
                }
            },
            _ => (self, seq![]),
        }
    }
}

/// What is known of the transfer as a whole.
struct Batch {
    requested: bool,
    id: String,
    files: u32,
    label: String,
    meter: Meter,
    last_saved: Option<String>,
    completed: bool,
    warned: bool,
}

impl Batch {
    spec fn view(self) -> BatchView {
        BatchView {
            requested: self.requested,
            id: self.id@,
            files: self.files,
            label: self.label@,
            meter: self.meter,
            last_saved: text_view(self.last_saved),
            completed: self.completed,
            warned: self.warned,
        }
    }

    /// Where the transfer went, as it is shown to the user.
    fn destination(&self, save_dir: &String) -> (path: String)
        ensures
            path@ == self@.destination(save_dir@),
    {
        if self.files == 1 {
            match &self.last_saved {
                Some(path) => path.clone(),
                None => String::new(),
            }
        } else {
            save_dir.clone()
        }
    }
}

/// How far the transfer has come.
enum Stage {
    Message,
    Answer,
    Locate { rel_path: String, size: u64 },
    Place { rel_path: String, placing: Placing },
    Prefix { rel_path: String, placing: Placing, offset: u64 },
    Open { rel_path: String, placing: Placing, offset: u64, digest: FileDigest },
    Chunk { rel_path: String, path: String, remaining: u64, digest: FileDigest },
    Checksum { rel_path: String, digest: FileDigest },
    Done,
}

impl Stage {
    spec fn view(self) -> ReceptionStage {
        match self {
            Stage::Message => ReceptionStage::Message,
            Stage::Answer => ReceptionStage::Answer,
            Stage::Locate { rel_path, size } => ReceptionStage::Locate {
                rel_path: rel_path@,
                size,
            },
            Stage::Place { rel_path, placing } => ReceptionStage::Place {
                rel_path: rel_path@,
                placement: placing@,
            },
            Stage::Prefix { rel_path, placing, offset } => ReceptionStage::Prefix {
                rel_path: rel_path@,
                placement: placing@,
                offset,
            },
            Stage::Open { rel_path, placing, offset, digest } => ReceptionStage::Open {
                rel_path: rel_path@,
                placement: placing@,
                offset,
                covered: digest@,
            },
            Stage::Chunk { rel_path, path, remaining, digest } => ReceptionStage::Chunk {
                rel_path: rel_path@,
                path: path@,
                remaining,
                covered: digest@,
            },
            Stage::Checksum { rel_path, digest } => ReceptionStage::Checksum {
                rel_path: rel_path@,
                covered: digest@,
            },
            Stage::Done => ReceptionStage::Done,
        }
    }
}

/// A transfer that comes in.
pub struct Incoming {
    platform: Platform,
    save_dir: String,
    batch: Batch,
    stage: Stage,
}

impl View for Incoming {
    type V = Reception;

    closed spec fn view(&self) -> Reception {
        Reception {
            platform: self.platform,
            save_dir: self.save_dir@,
            batch: self.batch@,
            stage: self.stage@,
        }
    }
}

/// What is to be done next for a transfer that comes in.
#[derive(Debug)]
pub enum IncomingAction {
    /// Read a message.
    ReadMessage,
    /// Wait for the user's answer, but not for ever.
    AskUser,
    /// Go down this way from the download folder, and make the folders on it.
    Locate(Vec<String>),
    /// Find out how long the file of this name at the end of the way is, if there
    /// is one.
    Probe(String),
    /// Hash so many bytes at the beginning of the file of this name.
    HashPrefix(String, u64),
    /// Open the file of this name, to write from this byte on. At byte zero it is
    /// created anew.
    Open(String, u64),
    /// Receive a piece of the file and write it, unless the transfer is cancelled
    /// first. The flag says whether it can be.
    ReadChunk(bool),
    /// Read the message with the checksum.
    ReadChecksum,
    /// Close the connection.
    Stop,
}

/// `action` is what is to be done next for `reception`.
pub open spec fn is_next(action: IncomingAction, reception: Reception) -> bool {
    match (action, reception.stage) {
        (IncomingAction::ReadMessage, ReceptionStage::Message) => true,
        (IncomingAction::AskUser, ReceptionStage::Answer) => true,
        (IncomingAction::Locate(parts), ReceptionStage::Locate { rel_path, .. }) => {
            texts_view(parts@) == parts_of(reception.platform, rel_path) && parts@.len() > 0
        },
        (IncomingAction::Probe(name), ReceptionStage::Place { placement, .. }) => {
            !placement.is_over() && name@ == placement.current()
        },
        (
            IncomingAction::HashPrefix(name, len),
            ReceptionStage::Prefix { placement, offset, .. },
        ) => name@ == placement.current() && len == offset > 0,
        (
            IncomingAction::Open(name, from),
            ReceptionStage::Open { placement, offset, .. },
        ) => name@ == placement.current() && from == offset,
        (
            IncomingAction::ReadChunk(cancellable),
            ReceptionStage::Chunk { remaining, .. },
        ) => cancellable == reception.batch.requested && remaining > 0,
        (IncomingAction::ReadChecksum, ReceptionStage::Checksum { .. }) => true,
        (IncomingAction::Stop, ReceptionStage::Done) => true,
        _ => false,
    }
}

impl Incoming {
    #[verifier::type_invariant]
    spec fn wf(self) -> bool {
        match self.stage {
            Stage::Locate { rel_path, .. } => parts_of(self.platform, rel_path@).len() > 0,
            Stage::Place { placing, .. } => !placing@.is_over(),
            Stage::Prefix { placing, offset, .. } => {
                placing@.at is Settled && placing@.at->1 == offset > 0
            },
            Stage::Open { placing, offset, .. } => {
                placing@.at is Settled && placing@.at->1 == offset
            },
            Stage::Chunk { remaining, .. } => remaining > 0,
            _ => true,
        }
    }

    /// A connection that has just been made. What it brings goes to `save_dir`, on the
    /// system `platform`.
    pub fn new(platform: Platform, save_dir: String, now: u64) -> (incoming: Incoming)
        ensures
            incoming@ == (Reception {
                platform,
                save_dir: save_dir@,
                batch: BatchView {
                    requested: false,
                    id: Seq::empty(),
                    files: 0,
                    label: Seq::empty(),
                    meter: Meter {
                        total: 0,
                        done: 0,
                        last_pct: 0,
                        last_emit: now,
                        last_emit_bytes: 0,
                    },
                    last_saved: None,
                    completed: false,
                    warned: false,
                },
                stage: ReceptionStage::Message,
            }),
    {
        let batch = Batch {
            requested: false,
            id: String::new(),
            files: 0,
            label: String::new(),
            meter: Meter::new(0, now),
            last_saved: None,
            completed: false,
            warned: false,
        };
        Incoming { platform, save_dir, batch, stage: Stage::Message }
    }

    /// What is to be done next.
    pub fn next(&self) -> (action: IncomingAction)
        ensures
            is_next(action, self@),
    {
        proof {
            use_type_invariant(self);
        }
        match &self.stage {
            Stage::Message => IncomingAction::ReadMessage,
            Stage::Answer => IncomingAction::AskUser,
            Stage::Locate { rel_path, .. } => IncomingAction::Locate(
                safe_parts(self.platform, rel_path.as_str()),
            ),
            Stage::Place { placing, .. } => IncomingAction::Probe(placing.current()),
            Stage::Prefix { placing, offset, .. } => IncomingAction::HashPrefix(
                placing.current(),
                *offset,
            ),
            Stage::Open { placing, offset, .. } => IncomingAction::Open(
                placing.current(),
                *offset,
            ),
            Stage::Chunk { .. } => IncomingAction::ReadChunk(self.batch.requested),
            Stage::Checksum { .. } => IncomingAction::ReadChecksum,
            Stage::Done => IncomingAction::Stop,
        }
    }

    /// Ends with a failure.
    fn failed(self, error: ReceiveError) -> (r: (Incoming, Vec<Effect>))
        ensures
            r.0@ == self@.after_failure(error).0,
            effects_view(r.1@) == self@.after_failure(error).1,
    {
        let ghost expected = self@.after_failure(error);
        let mut effects: Vec<Effect> = Vec::new();
        if self.batch.requested {
            effects.push(
                Effect::Failed { id: self.batch.id.clone(), error: error.message().to_string() },
            );
        }
        proof {
            assert(effects_view(effects@) == expected.1);
        }
        (Incoming { platform: self.platform, save_dir: self.save_dir, batch: self.batch, stage: Stage::Done }, effects)
    }

    /// A message has come.
    pub fn message(self, message: TransferProtocol, now: u64) -> (r: (Incoming, Vec<Effect>))
        requires
            self@.stage is Message,
        ensures
            r.0@ == self@.after_message(message@, now).0,
            effects_view(r.1@) == self@.after_message(message@, now).1,
    {
        let ghost expected = self@.after_message(message@, now);
        let mut effects: Vec<Effect> = Vec::new();
        let next = match message {
            TransferProtocol::TransferRequest { total_size, total_files, id } => {
                let mut label = decimal_string(total_files as u64);
                label.append(" adet içerik");
                let mut body = decimal_string(total_files as u64);
                body.append(" dosya (");
                body.append(format_size(total_size).as_str());
                body.append(") göndermek istiyor. Kabul ediyor musunuz?");
                effects.push(Effect::Register { id: id.clone() });
                effects.push(Effect::Await { id: id.clone() });
                effects.push(Effect::ShowWindow);
                effects.push(
                    Effect::Notify { title: "VeriShare — Gelen İstek".to_string(), body },
                );
                effects.push(Effect::Request { id: id.clone(), total_size, total_files });
                let batch = Batch {
                    requested: true,
                    id,
                    files: total_files,
                    label,
                    meter: Meter::new(total_size, now),
                    last_saved: None,
                    completed: false,
                    warned: false,
                };
                Incoming { platform: self.platform, save_dir: self.save_dir, batch, stage: Stage::Answer }
            },
            TransferProtocol::FileOffsetRequest { rel_path, file_size } => {
                let parts = safe_parts(self.platform, rel_path.as_str());
                proof {
                    assert(texts_view(parts@).len() == parts@.len());
                }
                if parts.len() == 0 {
                    return self.failed(ReceiveError::NoWay);
                }
                Incoming {
                    platform: self.platform,
                    save_dir: self.save_dir,
                    batch: self.batch,
                    stage: Stage::Locate { rel_path, size: file_size },
                }
            },
            TransferProtocol::AllDone => {
                if self.batch.id.unicode_len() > 0 {
                    effects.push(Effect::Unregister { id: self.batch.id.clone() });
                }
                if !self.batch.completed {
                    let destination = self.batch.destination(&self.save_dir);
                    effects.push(
                        Effect::Complete {
                            id: self.batch.id.clone(),
                            text: self.batch.label.clone(),
                            destination,
                        },
                    );
                }
                let mut body = self.batch.label.clone();
                if self.batch.warned {
                    body.append(" indirildi (bazı dosyalarda bütünlük uyarısı var)");
                } else {
                    body.append(" indirildi!");
                }
                effects.push(Effect::Notify { title: "VeriShare".to_string(), body });
                Incoming { platform: self.platform, save_dir: self.save_dir, batch: self.batch, stage: Stage::Done }
            },
            _ => self,
        };
        proof {
            assert(effects_view(effects@) == expected.1);
        }
        (next, effects)
    }

    /// The connection has closed in place of a message.
    pub fn closed(self) -> (r: (Incoming, Vec<Effect>))
        requires
            self@.stage is Message,
        ensures
            r.0@ == self@.after_close().0,
            effects_view(r.1@) == self@.after_close().1,
    {
        if self.batch.completed && self.batch.meter.done >= self.batch.meter.total {
            let effects: Vec<Effect> = Vec::new();
            proof {
                assert(effects_view(effects@) == self@.after_close().1);
            }
            (Incoming { platform: self.platform, save_dir: self.save_dir, batch: self.batch, stage: Stage::Done }, effects)
        } else {
            self.failed(ReceiveError::Closed)
        }
    }

    /// The user has answered, or has let the time for it run out.
    pub fn answer(self, answer: Option<bool>) -> (r: (Incoming, Vec<Effect>))
        requires
            self@.stage is Answer,
        ensures
            r.0@ == self@.after_answer(answer).0,
            effects_view(r.1@) == self@.after_answer(answer).1,
    {
        let ghost expected = self@.after_answer(answer);
        let mut effects: Vec<Effect> = Vec::new();
        let accepted: bool = match answer {
            Some(yes) => yes,
            None => {
                effects.push(Effect::Forget { id: self.batch.id.clone() });
                effects.push(Effect::Expired { id: self.batch.id.clone() });
                false
            },
        };
        let stage = if accepted {
            effects.push(Effect::Send(TransferProtocol::TransferAccepted));
            effects.push(
                Effect::Initiated {
                    id: self.batch.id.clone(),
                    text: self.batch.label.clone(),
                    dir: Direction::In,
                },
            );
            Stage::Message
        } else {
            effects.push(Effect::Send(TransferProtocol::TransferDeclined));
            effects.push(Effect::Unregister { id: self.batch.id.clone() });
            Stage::Done
        };
        proof {
            assert(effects_view(effects@) == expected.1);
        }
        (Incoming { platform: self.platform, save_dir: self.save_dir, batch: self.batch, stage }, effects)
    }

    /// The folders on the way to the file are there.
    pub fn located(self) -> (next: Incoming)
        requires
            self@.stage is Locate,
        ensures
            next@ == self@.after_locating(),
    {
        proof {
            use_type_invariant(&self);
        }
        let stage = match self.stage {
            Stage::Locate { rel_path, size } => {
                let parts = safe_parts(self.platform, rel_path.as_str());
                let ghost way = texts_view(parts@);
                proof {
                    assert(way.len() == parts@.len());
                    assert(way.last() == parts@[parts@.len() - 1]@);
                }
                let name = parts[parts.len() - 1].clone();
                Stage::Place { rel_path, placing: Placing::new(name, size) }
            },
            stage => stage,
        };
        Incoming { platform: self.platform, save_dir: self.save_dir, batch: self.batch, stage }
    }

    /// The file of the present name is so long, or there is none.
    pub fn probed(self, existing: Option<u64>) -> (r: (Incoming, Vec<Effect>))
        requires
            self@.stage is Place,
        ensures
            r.0@ == self@.after_probe(existing).0,
            effects_view(r.1@) == self@.after_probe(existing).1,
    {
        let ghost expected = self@.after_probe(existing);
        let mut effects: Vec<Effect> = Vec::new();
        let stage = match self.stage {
            Stage::Place { rel_path, placing } => {
                let placing = placing.answer(existing);
                match placing.settled() {
                    Some(offset) => if offset > 0 {
                        Stage::Prefix { rel_path, placing, offset }
                    } else {
                        effects.push(
                            Effect::Send(TransferProtocol::FileOffsetResponse { offset }),
                        );
                        Stage::Open { rel_path, placing, offset, digest: FileDigest::new() }
                    },
                    None => if placing.is_full() {
                        let ended = Incoming {
                            platform: self.platform,
                            save_dir: self.save_dir,
                            batch: self.batch,
                            stage: Stage::Done,
                        };
                        return ended.failed(ReceiveError::NoPlace);
                    } else {
                        Stage::Place { rel_path, placing }
                    },
                }
            },
            stage => stage,
        };
        proof {
            assert(effects_view(effects@) == expected.1);
        }
        (Incoming { platform: self.platform, save_dir: self.save_dir, batch: self.batch, stage }, effects)
    }

    /// Whether the count of the transfer has room for `n` more bytes.
    pub fn has_room(&self, n: u64) -> (b: bool)
        ensures
            b == (self@.batch.meter.done + n <= u64::MAX),
    {
        n <= u64::MAX - self.batch.meter.done
    }

    /// What is there of the file has been hashed, or could not be read.
    pub fn prefix(self, digest: Option<FileDigest>) -> (r: (Incoming, Vec<Effect>))
        requires
            self@.stage is Prefix,
            self@.batch.meter.done + self@.stage->Prefix_offset <= u64::MAX,
        ensures
            r.0@ == self@.after_prefix(digest_view(digest)).0,
            effects_view(r.1@) == self@.after_prefix(digest_view(digest)).1,
    {
        proof {
            use_type_invariant(&self);
        }
        let digest = match digest {
            Some(digest) => digest,
            None => FileDigest::new(),
        };
        let mut effects: Vec<Effect> = Vec::new();
        let mut meter = self.batch.meter;
        let ghost before = self@;
        let stage = match self.stage {
            Stage::Prefix { rel_path, placing, offset } => {
                meter.skip(offset);
                effects.push(Effect::Send(TransferProtocol::FileOffsetResponse { offset }));
                Stage::Open { rel_path, placing, offset, digest }
            },
            stage => stage,
        };
        let batch = Batch { meter, ..self.batch };
        proof {
            assert(effects_view(effects@) == before.after_prefix(None).1);
        }
        (Incoming { platform: self.platform, save_dir: self.save_dir, batch, stage }, effects)
    }

    /// The file is open at `path`.
    pub fn opened(self, path: String) -> (next: Incoming)
        requires
            self@.stage is Open,
        ensures
            next@ == self@.after_open(path@),
    {
        let last_saved = Some(path.clone());
        let stage = match self.stage {
            Stage::Open { rel_path, placing, offset, digest } => {
                let remaining: u64 = placing.size().saturating_sub(offset);
                if remaining > 0 {
                    Stage::Chunk { rel_path, path, remaining, digest }
                } else {
                    Stage::Checksum { rel_path, digest }
                }
            },
            stage => stage,
        };
        let batch = Batch { last_saved, ..self.batch };
        Incoming { platform: self.platform, save_dir: self.save_dir, batch, stage }
    }

    /// Whether the digest of the present file has room for `n` more bytes.
    pub fn can_cover(&self, n: u64) -> (b: bool)
        ensures
            b == (self@.stage is Chunk ==> self@.stage->Chunk_covered.len() + n < HASH_LIMIT),
    {
        match &self.stage {
            Stage::Chunk { digest, .. } => n < HASH_LIMIT - digest.len(),
            _ => true,
        }
    }

    /// A piece of the file has come, and has been written.
    pub fn chunk(self, chunk: &[u8], now: u64) -> (r: (Incoming, Vec<Effect>))
        requires
            self@.stage is Chunk,
            self@.batch.meter.done + chunk@.len() <= u64::MAX,
            self@.stage->Chunk_covered.len() + chunk@.len() < HASH_LIMIT,
        ensures
            r.0@ == self@.after_chunk(chunk@, now).0,
            effects_view(r.1@) == self@.after_chunk(chunk@, now).1,
    {
        let ghost expected = self@.after_chunk(chunk@, now);
        let n: u64 = chunk.len() as u64;
        let mut effects: Vec<Effect> = Vec::new();
        let mut meter = self.batch.meter;
        let mut completed: bool = self.batch.completed;
        let stage = match self.stage {
            Stage::Chunk { rel_path, path, remaining, digest } => {
                let digest = digest.with(chunk);
                let left: u64 = remaining.saturating_sub(n);
                match meter.advance(n, now) {
                    Some(tick) => {
                        completed = completed || tick.is_done;
                        let shown = if tick.is_done {
                            Some(
                                if self.batch.files == 1 {
                                    path.clone()
                                } else {
                                    self.save_dir.clone()
                                },
                            )
                        } else {
                            None
                        };
                        effects.push(
                            Effect::Progress {
                                dir: Direction::In,
                                id: self.batch.id.clone(),
                                text: self.batch.label.clone(),
                                tick,
                                path: shown,
                            },
                        );
                    },
                    None => {},
                }
                if left > 0 {
                    Stage::Chunk { rel_path, path, remaining: left, digest }
                } else {
                    Stage::Checksum { rel_path, digest }
                }
            },
            stage => stage,
        };
        let batch = Batch {
            requested: self.batch.requested,
            id: self.batch.id,
            files: self.batch.files,
            label: self.batch.label,
            meter,
            last_saved: self.batch.last_saved,
            completed,
            warned: self.batch.warned,
        };
        proof {
            assert(effects_view(effects@) == expected.1);
        }
        (Incoming { platform: self.platform, save_dir: self.save_dir, batch, stage }, effects)
    }

    /// The connection has closed in the middle of the file.
    pub fn broken(self) -> (r: (Incoming, Vec<Effect>))
        requires
            self@.stage is Chunk,
        ensures
            r.0@ == self@.after_failure(ReceiveError::Closed).0,
            effects_view(r.1@) == self@.after_failure(ReceiveError::Closed).1,
    {
        self.failed(ReceiveError::Closed)
    }

    /// The user has cancelled the transfer in the middle of the file.
    pub fn cancelled(self) -> (r: (Incoming, Vec<Effect>))
        requires
            self@.stage is Chunk,
        ensures
            r.0@ == self@.after_cancel().0,
            effects_view(r.1@) == self@.after_cancel().1,
    {
        let mut effects: Vec<Effect> = Vec::new();
        effects.push(
            Effect::Cancelled {
                dir: Direction::In,
                id: self.batch.id.clone(),
                pct: self.batch.meter.last_pct,
                text: self.batch.label.clone(),
            },
        );
        proof {
            assert(effects_view(effects@) == self@.after_cancel().1);
        }
        (Incoming { platform: self.platform, save_dir: self.save_dir, batch: self.batch, stage: Stage::Done }, effects)
    }

    /// A message has come where the checksum should, or none has.
    pub fn checksum(self, message: Option<TransferProtocol>) -> (r: (Incoming, Vec<Effect>))
        requires
            self@.stage is Checksum,
        ensures
            r.0@ == self@.after_checksum(message_view(message)).0,
            effects_view(r.1@) == self@.after_checksum(message_view(message)).1,
    {
        let ghost expected = self@.after_checksum(message_view(message));
        let mut effects: Vec<Effect> = Vec::new();
        let mut warned: bool = self.batch.warned;
        let stage = match self.stage {
            Stage::Checksum { rel_path, digest } => {
                match message {
                    Some(TransferProtocol::FileChecksum { checksum }) => {
                        let computed = hex_digest(digest);
                        if computed != checksum {
                            warned = true;
                            effects.push(
                                Effect::Warning { id: self.batch.id.clone(), file: rel_path },
                            );
                        }
                    },
                    _ => {},
                }
                Stage::Message
            },
            stage => stage,
        };
        let batch = Batch { warned, ..self.batch };
        proof {
            assert(effects_view(effects@) == expected.1);
        }
        (Incoming { platform: self.platform, save_dir: self.save_dir, batch, stage }, effects)
    }

    /// What the user sees when the connection fails with `error`: nothing, as long
    /// as no request has come.
    pub fn failure(&self, error: String) -> (effect: Option<Effect>)
        ensures
            self@.batch.requested ==> {
                &&& effect matches Some(e)
                &&& e@ == (EffectView::Failed { id: self@.batch.id, error: error@ })
            },
            !self@.batch.requested ==> effect is None,
    {
        if self.batch.requested {
            Some(Effect::Failed { id: self.batch.id.clone(), error })
        } else {
            None
        }
    }
}

/// The requests that wait once `effects` have been carried out, where `means` is the means to
/// answer.
pub open spec fn left_waiting<P>(
    pending: Map<Seq<char>, P>,
    effects: Seq<EffectView>,
    means: P,
) -> Map<Seq<char>, P>
    decreases effects.len(),
{
    if effects.len() == 0 {
        pending
    } else {
        let before = left_waiting(pending, effects.drop_last(), means);
        match effects.last() {
            EffectView::Await { id } => before.insert(id, means),
            EffectView::Forget { id } => before.remove(id),
            _ => before,
        }
    }
}

/// The transfers that can be cancelled once `effects` have been carried out, where `token` is
/// the means to cancel.
pub open spec fn left_cancellable<C>(
    tokens: Map<Seq<char>, C>,
    effects: Seq<EffectView>,
    token: C,
) -> Map<Seq<char>, C>
    decreases effects.len(),
{
    if effects.len() == 0 {
        tokens
    } else {
        let before = left_cancellable(tokens, effects.drop_last(), token);
        match effects.last() {
            EffectView::Register { id } => before.insert(id, token),
            EffectView::Unregister { id } => before.remove(id),
            _ => before,
        }
    }
}

/// A request is registered, waits and is shown to the user under the identifier that it came
/// with, and under no other. It waits before it is shown. So the answer that the user gives
/// for what is shown reaches the request that waits, and so does a cancellation; and no other
/// request and no other transfer is touched.
pub proof fn a_request_waits_under_the_id_that_is_shown<P, C>(
    r: Reception,
    total_size: u64,
    total_files: u32,
    id: Seq<char>,
    now: u64,
    pending: Map<Seq<char>, P>,
    means: P,
    tokens: Map<Seq<char>, C>,
    token: C,
)
    ensures
        ({
            let (next, effects) = r.after_message(
                Message::TransferRequest { total_size, total_files, id },
                now,
            );
            let waiting = left_waiting(pending, effects, means);
            let cancellable = left_cancellable(tokens, effects, token);
            &&& all_name(effects, id)
            &&& effects[0] == (EffectView::Register { id })
            &&& effects[1] == (EffectView::Await { id })
            &&& effects.len() == 5
            &&& effects[2] is ShowWindow
            &&& effects[3] is Notify
            &&& effects[3]->body == request_text(total_files, total_size)
            &&& effects[3]->title == "VeriShare — Gelen İstek"@
            &&& effects[4] == (EffectView::Request { id, total_size, total_files })
            &&& next.batch.label == label_text(total_files)
            &&& forall|i: int|
                0 <= i < effects.len() && (#[trigger] effects[i]) is Request ==> {
                    &&& taken_out(waiting, effects[i]->Request_id) == Some(means)
                    &&& taken_out(cancellable, effects[i]->Request_id) == Some(token)
                }
            &&& forall|other: Seq<char>|
                other != id ==> #[trigger] taken_out(waiting, other) == taken_out(pending, other)
            &&& forall|other: Seq<char>|
                other != id ==> #[trigger] taken_out(cancellable, other) == taken_out(
                    tokens,
                    other,
                )
            &&& next.stage is Answer
            &&& next.platform == r.platform && next.save_dir == r.save_dir
            &&& next.batch.requested && next.batch.id == id && next.batch.files == total_files
            &&& !next.batch.completed && !next.batch.warned && next.batch.last_saved is None
            &&& next.batch.meter.total == total_size && next.batch.meter.done == 0
            &&& next.batch.meter.last_pct == 0 && next.batch.meter.last_emit == now
            &&& next.batch.meter.last_emit_bytes == 0
        }),
{
    let effects = r.after_message(Message::TransferRequest { total_size, total_files, id }, now).1;
    let registered = seq![EffectView::Register { id }];
    let waits = registered.push(EffectView::Await { id });
    let shown = waits.push(effects[2]);
    let notified = shown.push(effects[3]);
    assert(effects == notified.push(effects[4]));
    assert(effects.drop_last() == notified);
    assert(notified.drop_last() == shown);
    assert(shown.drop_last() == waits);
    assert(waits.drop_last() == registered);
    assert(registered.drop_last() == Seq::<EffectView>::empty());
    reveal_with_fuel(left_waiting, 6);
    reveal_with_fuel(left_cancellable, 6);
    assert(left_waiting(pending, effects, means) == pending.insert(id, means));
    assert(left_cancellable(tokens, effects, token) == tokens.insert(id, token));
}

/// The user's answer is for the request that was shown. A yes lets the sender begin, and the
/// transfer is shown under its own identifier and label; it still can be cancelled. With a no,
/// or with none in time, the sender is declined and nothing can be cancelled any more; and a
/// request that nobody answered waits no longer.
pub proof fn an_answer_is_for_the_request<P, C>(
    r: Reception,
    answer: Option<bool>,
    pending: Map<Seq<char>, P>,
    means: P,
    tokens: Map<Seq<char>, C>,
    token: C,
)
    ensures
        ({
            let (next, effects) = r.after_answer(answer);
            let id = r.batch.id;
            let waiting = left_waiting(pending, effects, means);
            let cancellable = left_cancellable(tokens, effects, token);
            &&& next.batch == r.batch
            &&& next.platform == r.platform && next.save_dir == r.save_dir
            &&& all_name(effects, id)
            &&& answer == Some(true) ==> {
                &&& next.stage is Message
                &&& effects.len() == 2
                &&& effects[0] == EffectView::Send(Message::TransferAccepted)
                &&& effects[1] == (EffectView::Initiated {
                    id,
                    text: r.batch.label,
                    dir: Direction::In,
                })
                &&& waiting == pending
                &&& cancellable == tokens
            }
            &&& answer == Some(false) ==> {
                &&& next.stage is Done
                &&& effects.len() == 2
                &&& effects[0] == EffectView::Send(Message::TransferDeclined)
                &&& effects[1] == (EffectView::Unregister { id })
                &&& waiting == pending
                &&& cancellable == tokens.remove(id)
            }
            &&& answer is None ==> {
                &&& next.stage is Done
                &&& effects.len() == 4
                &&& effects[0] == (EffectView::Forget { id })
                &&& effects[1] == (EffectView::Expired { id })
                &&& effects[2] == EffectView::Send(Message::TransferDeclined)
                &&& effects[3] == (EffectView::Unregister { id })
                &&& waiting == pending.remove(id)
                &&& cancellable == tokens.remove(id)
            }
        }),
{
    let effects = r.after_answer(answer).1;
    let first = seq![effects[0]];
    let two = first.push(effects[1]);
    reveal_with_fuel(left_waiting, 5);
    reveal_with_fuel(left_cancellable, 5);
    assert(first.drop_last() == Seq::<EffectView>::empty());
    assert(two.drop_last() == first);
    if answer is None {
        let three = two.push(effects[2]);
        assert(three.drop_last() == two);
        assert(effects == three.push(effects[3]));
        assert(effects.drop_last() == three);
    } else {
        assert(effects == two);
    }
}

/// A message that belongs to the other side changes nothing.
pub proof fn the_receivers_own_messages_change_nothing(r: Reception, message: Message, now: u64)
    requires
        message is TransferAccepted || message is TransferDeclined
            || message is FileOffsetResponse || message is FileChecksum,
    ensures
        r.after_message(message, now).0 == r,
        r.after_message(message, now).1.len() == 0,
{
}

/// A file that comes is looked for under the very name that the sender gave, for as many
/// bytes as the sender said, at the end of its way. A name that leads nowhere ends the
/// transfer.
pub proof fn a_file_is_looked_for_by_its_name(
    r: Reception,
    rel_path: Seq<char>,
    file_size: u64,
    now: u64,
)
    ensures
        ({
            let (next, effects) = r.after_message(
                Message::FileOffsetRequest { rel_path, file_size },
                now,
            );
            let way = parts_of(r.platform, rel_path);
            &&& next.batch == r.batch
            &&& next.platform == r.platform && next.save_dir == r.save_dir
            &&& way.len() > 0 ==> {
                &&& effects.len() == 0
                &&& next.stage is Locate
                &&& next.stage->Locate_rel_path == rel_path
                &&& next.stage->Locate_size == file_size
                &&& next.after_locating().batch == r.batch
                &&& next.after_locating().stage is Place
                &&& next.after_locating().stage->Place_rel_path == rel_path
                &&& next.after_locating().stage->Place_placement.name == way[way.len() - 1]
                &&& next.after_locating().stage->Place_placement.size == file_size
                &&& next.after_locating().stage->Place_placement.at is First
            }
            &&& way.len() == 0 ==> {
                &&& next.stage is Done
                &&& r.batch.requested ==> effects.len() == 1 && effects[0] == (EffectView::Failed {
                    id: r.batch.id,
                    error: ReceiveError::NoWay.text(),
                })
                &&& !r.batch.requested ==> effects.len() == 0
            }
        }),
{
}

/// The sender is told how much of a file is there, and the file is opened at that very byte:
/// at its beginning where nothing is there, else behind what is there, which is hashed and
/// counted. Not a byte of what is there is written again, and none is left out.
pub proof fn a_file_is_opened_where_the_sender_is_told(
    r: Reception,
    existing: Option<u64>,
    prefix: Option<Seq<u8>>,
    path: Seq<char>,
)
    requires
        r.stage is Place,
        r.stage->Place_placement.after(existing).at is Settled,
        r.batch.meter.done + r.stage->Place_placement.after(existing).at->1 <= u64::MAX,
    ensures
        ({
            let place = r.stage->Place_placement.after(existing);
            let there = place.at->1;
            let (found, said) = r.after_probe(existing);
            let (hashed, said_later) = found.after_prefix(prefix);
            let ready = if there > 0 {
                hashed
            } else {
                found
            };
            let open = ready.after_open(path);
            &&& there == 0 ==> {
                &&& said.len() == 1
                &&& said[0] == EffectView::Send(Message::FileOffsetResponse { offset: 0 })
                &&& found.batch == r.batch
                &&& found.stage->Open_covered.len() == 0
            }
            &&& there > 0 ==> {
                &&& said.len() == 0
                &&& found.batch == r.batch
                &&& found.stage is Prefix
                &&& found.stage->Prefix_rel_path == r.stage->Place_rel_path
                &&& found.stage->Prefix_placement == place
                &&& found.stage->Prefix_offset == there
                &&& said_later.len() == 1
                &&& said_later[0] == EffectView::Send(
                    Message::FileOffsetResponse { offset: there },
                )
                &&& hashed.batch.meter.done == r.batch.meter.done + there
                &&& hashed.batch.meter.total == r.batch.meter.total
                &&& hashed.batch.meter.last_pct == r.batch.meter.last_pct
                &&& hashed.batch.meter.last_emit == r.batch.meter.last_emit
                &&& hashed.batch.meter.last_emit_bytes == r.batch.meter.last_emit_bytes
                &&& hashed.batch.id == r.batch.id && hashed.batch.files == r.batch.files
                &&& hashed.batch.label == r.batch.label
                &&& hashed.batch.completed == r.batch.completed
                &&& hashed.batch.warned == r.batch.warned
                &&& hashed.batch.requested == r.batch.requested
                &&& prefix matches Some(bytes) ==> hashed.stage->Open_covered == bytes
                &&& prefix is None ==> hashed.stage->Open_covered.len() == 0
            }
            &&& ready.stage is Open
            &&& ready.stage->Open_rel_path == r.stage->Place_rel_path
            &&& ready.stage->Open_placement == place
            &&& ready.stage->Open_offset == there
            &&& open.batch.last_saved == Some(path)
            &&& open.batch.meter == ready.batch.meter && open.batch.id == r.batch.id
            &&& open.batch.label == r.batch.label && open.batch.files == r.batch.files
            &&& there < place.size ==> {
                &&& open.stage is Chunk
                &&& open.stage->Chunk_rel_path == r.stage->Place_rel_path
                &&& open.stage->Chunk_path == path
                &&& open.stage->Chunk_remaining == place.size - there
                &&& open.stage->Chunk_covered == ready.stage->Open_covered
            }
            &&& there >= place.size ==> {
                &&& open.stage is Checksum
                &&& open.stage->Checksum_rel_path == r.stage->Place_rel_path
                &&& open.stage->Checksum_covered == ready.stage->Open_covered
            }
        }),
{
}

/// A piece that has come is counted, and is covered by the checksum behind what was covered
/// before; the file goes on until as many bytes have come as were to come. The user sees it at
/// most once, if and only if it is time to, under the identifier and the label of the
/// transfer. Once it is complete the user also sees where it went: a single file to its own
/// place, several to the download folder.
pub proof fn a_piece_that_comes_is_counted_and_covered(r: Reception, chunk: Seq<u8>, now: u64)
    requires
        r.stage is Chunk,
        chunk.len() <= u64::MAX,
        r.batch.meter.done + chunk.len() <= u64::MAX,
    ensures
        ({
            let (next, effects) = r.after_chunk(chunk, now);
            let counted = r.batch.meter.counted(chunk.len());
            let remaining = r.stage->Chunk_remaining;
            &&& next.platform == r.platform && next.save_dir == r.save_dir
            &&& next.batch.requested == r.batch.requested && next.batch.id == r.batch.id
            &&& next.batch.files == r.batch.files && next.batch.label == r.batch.label
            &&& next.batch.last_saved == r.batch.last_saved
            &&& next.batch.warned == r.batch.warned
            &&& next.batch.meter.done == r.batch.meter.done + chunk.len()
            &&& next.batch.meter.total == r.batch.meter.total
            &&& chunk.len() < remaining ==> {
                &&& next.stage is Chunk
                &&& next.stage->Chunk_rel_path == r.stage->Chunk_rel_path
                &&& next.stage->Chunk_path == r.stage->Chunk_path
                &&& next.stage->Chunk_remaining == remaining - chunk.len()
                &&& next.stage->Chunk_covered == r.stage->Chunk_covered + chunk
            }
            &&& chunk.len() >= remaining ==> {
                &&& next.stage is Checksum
                &&& next.stage->Checksum_rel_path == r.stage->Chunk_rel_path
                &&& next.stage->Checksum_covered == r.stage->Chunk_covered + chunk
            }
            &&& effects.len() <= 1
            &&& effects.len() == 1 <==> counted.is_due(now)
            &&& effects.len() == 1 ==> {
                &&& effects[0] is Progress
                &&& effects[0]->Progress_dir is In
                &&& effects[0]->Progress_id == r.batch.id
                &&& effects[0]->Progress_text == r.batch.label
                &&& effects[0]->tick == counted.tick(now)
                &&& effects[0]->path is Some <==> effects[0]->tick.is_done
                &&& effects[0]->path is Some && r.batch.files == 1 ==> effects[0]->path->0
                    == r.stage->Chunk_path
                &&& effects[0]->path is Some && r.batch.files != 1 ==> effects[0]->path->0
                    == r.save_dir
                &&& next.batch.completed == (r.batch.completed || effects[0]->tick.is_done)
                &&& next.batch.meter.last_pct == effects[0]->tick.pct
                &&& next.batch.meter.last_emit == now
                &&& next.batch.meter.last_emit_bytes == r.batch.meter.done + chunk.len()
            }
            &&& effects.len() == 0 ==> {
                &&& next.batch.completed == r.batch.completed
                &&& next.batch.meter.last_pct == r.batch.meter.last_pct
                &&& next.batch.meter.last_emit == r.batch.meter.last_emit
                &&& next.batch.meter.last_emit_bytes == r.batch.meter.last_emit_bytes
            }
        }),
{
}

/// Behind a file the next message is read, whatever stands where its checksum should. The user
/// is warned if and only if a checksum stands there and is another than that of everything
/// that has come, and the warning names the file as the sender did.
pub proof fn a_wrong_checksum_alone_is_warned_of(r: Reception, message: Option<Message>)
    requires
        r.stage is Checksum,
    ensures
        ({
            let (next, effects) = r.after_checksum(message);
            let differs = message matches Some(Message::FileChecksum { checksum: sum }) && sum
                != checksum(r.stage->Checksum_covered);
            &&& next.stage is Message
            &&& next.platform == r.platform && next.save_dir == r.save_dir
            &&& next.batch.requested == r.batch.requested && next.batch.id == r.batch.id
            &&& next.batch.files == r.batch.files && next.batch.label == r.batch.label
            &&& next.batch.meter == r.batch.meter
            &&& next.batch.last_saved == r.batch.last_saved
            &&& next.batch.completed == r.batch.completed
            &&& next.batch.warned == (r.batch.warned || differs)
            &&& differs ==> effects.len() == 1 && effects[0] == (EffectView::Warning {
                id: r.batch.id,
                file: r.stage->Checksum_rel_path,
            })
            &&& !differs ==> effects.len() == 0
        }),
{
}

/// A transfer that the user cancels ends, and is shown as cancelled under its own identifier
/// and label, with the percentage that was told last.
pub proof fn a_cancelled_reception_ends(r: Reception)
    ensures
        ({
            let (next, effects) = r.after_cancel();
            &&& next.stage is Done
            &&& next.batch == r.batch
            &&& effects.len() == 1
            &&& effects[0] is Cancelled
            &&& effects[0]->Cancelled_dir is In
            &&& effects[0]->Cancelled_id == r.batch.id
            &&& effects[0]->pct == r.batch.meter.last_pct
            &&& effects[0]->Cancelled_text == r.batch.label
        }),
{
}

/// A failure ends the transfer, and the user sees it under the transfer's identifier with its
/// reason, if there was a request. A connection that closes in place of a message is no
/// failure if and only if everything has come and the user knows.
pub proof fn a_failure_ends_the_reception(r: Reception, error: ReceiveError)
    ensures
        ({
            let (next, effects) = r.after_failure(error);
            let (closed, shown) = r.after_close();
            let known = r.batch.completed && r.batch.meter.done >= r.batch.meter.total;
            &&& next.stage is Done && next.batch == r.batch
            &&& r.batch.requested ==> effects.len() == 1 && effects[0] == (EffectView::Failed {
                id: r.batch.id,
                error: error.text(),
            })
            &&& !r.batch.requested ==> effects.len() == 0
            &&& closed.stage is Done && closed.batch == r.batch
            &&& shown.len() == 1 <==> r.batch.requested && !known
            &&& shown.len() <= 1
            &&& shown.len() == 1 ==> shown[0] == (EffectView::Failed {
                id: r.batch.id,
                error: ReceiveError::Closed.text(),
            })
        }),
{
}

/// At the end the transfer can be cancelled no longer, the user is told that it is complete
/// unless a piece of progress has told it, and a notification says so, with a word of warning
/// if and only if a file did not arrive as it was sent. A single file went to its own place,
/// several went to the download folder.
pub proof fn the_end_is_told(r: Reception, now: u64)
    ensures
        ({
            let (next, effects) = r.after_message(Message::AllDone, now);
            let last = effects[effects.len() - 1];
            &&& next.stage is Done && next.batch == r.batch
            &&& all_name(effects, r.batch.id)
            &&& r.batch.id.len() > 0 ==> effects[0] == (EffectView::Unregister { id: r.batch.id })
            &&& effects.len() == 1 + (if r.batch.id.len() > 0 {
                1int
            } else {
                0
            }) + (if r.batch.completed {
                0int
            } else {
                1
            })
            &&& last is Notify
            &&& last->body == done_text(r.batch.label, r.batch.warned)
            &&& last->title == "VeriShare"@
            &&& !r.batch.completed ==> {
                let told = effects[effects.len() - 2];
                &&& told is Complete
                &&& told->Complete_id == r.batch.id
                &&& told->Complete_text == r.batch.label
                &&& r.batch.files != 1 ==> told->destination == r.save_dir
                &&& r.batch.files == 1 && r.batch.last_saved is Some ==> told->destination
                    == r.batch.last_saved->0
            }
        }),
{
}

/// Whatever is to be done next fits the stage, and where a file is named, it is the file at
/// the place that was found, and where a byte is named, it is the byte that the sender was
/// told.
pub proof fn the_next_step_fits_the_stage(action: IncomingAction, r: Reception)
    requires
        is_next(action, r),
    ensures
        action is ReadMessage <==> r.stage is Message,
        action is AskUser <==> r.stage is Answer,
        action is Locate <==> r.stage is Locate,
        action is Locate ==> {
            let way = parts_of(r.platform, r.stage->Locate_rel_path);
            &&& action->Locate_0@.len() == way.len() > 0
            &&& forall|k: int|
                0 <= k < way.len() ==> (#[trigger] action->Locate_0@[k])@ == way[k]
        },
        action is Probe <==> r.stage is Place,
        action is Probe ==> action->Probe_0@ == r.stage->Place_placement.current(),
        action is HashPrefix <==> r.stage is Prefix,
        action is HashPrefix ==> action->HashPrefix_0@ == r.stage->Prefix_placement.current()
            && action->HashPrefix_1 == r.stage->Prefix_offset,
        action is Open <==> r.stage is Open,
        action is Open ==> action->Open_0@ == r.stage->Open_placement.current()
            && action->Open_1 == r.stage->Open_offset,
        action is ReadChunk <==> r.stage is Chunk,
        action is ReadChunk ==> action->ReadChunk_0 == r.batch.requested,
        action is ReadChecksum <==> r.stage is Checksum,
        action is Stop <==> r.stage is Done,
{
    if action is Locate {
        let way = parts_of(r.platform, r.stage->Locate_rel_path);
        let shown = texts_view(action->Locate_0@);
        assert forall|k: int| 0 <= k < way.len() implies (#[trigger] action->Locate_0@[k])@
            == way[k] by {
            assert(shown[k] == action->Locate_0@[k]@);
        }
    }
}

/// The user can read off how many files come, both from the label and from the question, and
/// how much they are from the question.
pub proof fn the_number_of_files_can_be_read(files: u32, size: u64)
    ensures
        ({
            let label = label_text(files);
            let digits = label.len() - 12;
            &&& digits > 0
            &&& number_of(label.take(digits)) == files
            &&& label.skip(digits) == seq![
                ' ',
                'a',
                'd',
                'e',
                't',
                ' ',
                'i',
                'ç',
                'e',
                'r',
                'i',
                'k',
            ]
        }),
        ({
            let text = request_text(files, size);
            let amount = size_text(size as nat);
            let digits = text.len() - 50 - amount.len();
            &&& digits > 0
            &&& number_of(text.take(digits)) == files
            &&& text.subrange(digits, digits + 8) == seq![' ', 'd', 'o', 's', 'y', 'a', ' ', '(']
            &&& text.subrange(digits + 8, digits + 8 + amount.len()) == amount
            &&& text[digits + 8 + amount.len()] == ')'
            &&& text[text.len() - 1] == '?'
        }),
{
    a_number_is_read_back(files as nat);
    reveal_strlit(" adet içerik");
    reveal_strlit(" dosya (");
    reveal_strlit(") göndermek istiyor. Kabul ediyor musunuz?");
    let number = decimal(files as nat);
    let label = label_text(files);
    assert(label.take(label.len() - 12) == number);
    assert(label.skip(label.len() - 12) == " adet içerik"@);
    let text = request_text(files, size);
    let amount = size_text(size as nat);
    let digits = text.len() - 50 - amount.len();
    assert(") göndermek istiyor. Kabul ediyor musunuz?"@.len() == 42);
    assert(text.take(digits) == number);
    assert(text.subrange(digits, digits + 8) == " dosya ("@);
    assert(text.subrange(digits + 8, digits + 8 + amount.len()) == amount);
}

/// The last word begins with the label, and warns if and only if something is to be warned
/// of.
pub proof fn the_last_word_warns(label: Seq<char>)
    ensures
        done_text(label, false).len() == label.len() + 11,
        done_text(label, false).take(label.len() as int) == label,
        done_text(label, false)[label.len() as int + 10] == '!',
        done_text(label, true).len() > label.len() + 11,
        done_text(label, true).take(label.len() as int) == label,
        done_text(label, true) != done_text(label, false),
{
    reveal_strlit(" indirildi (bazı dosyalarda bütünlük uyarısı var)");
    reveal_strlit(" indirildi!");
    assert(done_text(label, false).take(label.len() as int) == label);
    assert(done_text(label, true).take(label.len() as int) == label);
}

/// No two reasons why a transfer failed read the same.
pub proof fn no_two_failures_read_the_same(a: ReceiveError, b: ReceiveError)
    requires
        a.text() == b.text(),
    ensures
        a == b,
{
    reveal_strlit("Bağlantı beklenmedik şekilde kapandı.");
    reveal_strlit("Geçersiz dosya yolu.");
    reveal_strlit("Dosya için boş bir ad bulunamadı.");
    assert("Bağlantı beklenmedik şekilde kapandı."@[0] == 'B');
    assert("Geçersiz dosya yolu."@[0] == 'G');
    assert("Dosya için boş bir ad bulunamadı."@[0] == 'D');
}

} // verus!
