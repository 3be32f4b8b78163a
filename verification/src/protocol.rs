//! The messages that the two sides of a transfer send each other.

use vstd::prelude::*;

verus! {

/// The TCP port on which transfers are accepted.
pub const TRANSFER_PORT: u16 = 53318;

/// A request that the user has not answered after so many seconds is declined.
pub const REQUEST_TIMEOUT_SECS: u64 = 60;

/// A message between the two sides of a transfer.
#[derive(Debug)]
pub enum TransferProtocol {
    /// The sender asks whether it may send.
    TransferRequest { total_size: u64, total_files: u32, id: String },
    /// The receiver lets it.
    TransferAccepted,
    /// The receiver does not let it.
    TransferDeclined,
    /// Goes before each file: the sender asks how much of it is there already.
    FileOffsetRequest { rel_path: String, file_size: u64 },
    /// Zero: the file is sent from its beginning. Else the receiver has so many
    /// bytes of it, and the sender goes on from there.
    FileOffsetResponse { offset: u64 },
    /// The SHA-256 of the whole file, with the part that was not sent.
    FileChecksum { checksum: String },
    /// Every file has been sent.
    AllDone,
}

/// What a message says.
pub enum Message {
    TransferRequest { total_size: u64, total_files: u32, id: Seq<char> },
    TransferAccepted,
    TransferDeclined,
    FileOffsetRequest { rel_path: Seq<char>, file_size: u64 },
    FileOffsetResponse { offset: u64 },
    FileChecksum { checksum: Seq<char> },
    AllDone,
}

impl View for TransferProtocol {
    type V = Message;

    open spec fn view(&self) -> Message {
        match self {
            TransferProtocol::TransferRequest {
                total_size,
                total_files,
                id,
            } => Message::TransferRequest {
                total_size: *total_size,
                total_files: *total_files,
                id: id@,
            },
            TransferProtocol::TransferAccepted => Message::TransferAccepted,
            TransferProtocol::TransferDeclined => Message::TransferDeclined,
            TransferProtocol::FileOffsetRequest {
                rel_path,
                file_size,
            } => Message::FileOffsetRequest { rel_path: rel_path@, file_size: *file_size },
            TransferProtocol::FileOffsetResponse { offset } => Message::FileOffsetResponse {
                offset: *offset,
            },
            TransferProtocol::FileChecksum { checksum } => Message::FileChecksum {
                checksum: checksum@,
            },
            TransferProtocol::AllDone => Message::AllDone,
        }
    }
}

/// What a message says, if there is one.
pub open spec fn message_view(message: Option<TransferProtocol>) -> Option<Message> {
    match message {
        Some(m) => Some(m@),
        None => None,
    }
}

/// Two messages that say the same are the same, in every text and in every number.
pub proof fn messages_are_seen_as_they_are(a: TransferProtocol, b: TransferProtocol)
    requires
        a@ == b@,
    ensures
        a is TransferRequest <==> b is TransferRequest,
        a is TransferRequest ==> {
            &&& a->total_size == b->total_size
            &&& a->total_files == b->total_files
            &&& a->id@ == b->id@
        },
        a is TransferAccepted <==> b is TransferAccepted,
        a is TransferDeclined <==> b is TransferDeclined,
        a is FileOffsetRequest <==> b is FileOffsetRequest,
        a is FileOffsetRequest ==> a->rel_path@ == b->rel_path@ && a->file_size == b->file_size,
        a is FileOffsetResponse <==> b is FileOffsetResponse,
        a is FileOffsetResponse ==> a->offset == b->offset,
        a is FileChecksum <==> b is FileChecksum,
        a is FileChecksum ==> a->checksum@ == b->checksum@,
        a is AllDone <==> b is AllDone,
{
}

/// What a message says is what it holds.
pub proof fn a_message_says_what_it_holds(m: TransferProtocol)
    ensures
        m is TransferRequest ==> m@ == (Message::TransferRequest {
            total_size: m->total_size,
            total_files: m->total_files,
            id: m->id@,
        }),
        m is TransferAccepted <==> m@ == Message::TransferAccepted,
        m is TransferDeclined <==> m@ == Message::TransferDeclined,
        m is FileOffsetRequest ==> m@ == (Message::FileOffsetRequest {
            rel_path: m->rel_path@,
            file_size: m->file_size,
        }),
        m is FileOffsetResponse ==> m@ == (Message::FileOffsetResponse { offset: m->offset }),
        m is FileChecksum ==> m@ == (Message::FileChecksum { checksum: m->checksum@ }),
        m is AllDone <==> m@ == Message::AllDone,
        message_view(Some(m)) == Some(m@),
        message_view(None) is None,
{
}

} // verus!
