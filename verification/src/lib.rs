//! VeriShare: file transfer between the users of one local network.
//!
//! The library makes every decision of the program and touches no socket, file or
//! clock. Whatever has to wait for the outside world is a state machine here: it
//! says what to do next and takes what came of it.
//!
//! - Finding each other: `discovery`, with `address` for addresses as texts.
//! - The encrypted connection: `handshake` and `channel`, on `crypto` and `bytes`.
//! - Transfers: `outgoing` and `incoming` are the two sides, `protocol` is what they
//!   say to each other and `effects` what else they do; `naming` finds the place of a
//!   file, `digest` sums it up, `progress` counts its bytes, `pending` holds what can
//!   be answered or cancelled, and `transfer` states what both sides come to together.
//! - Around them: `settings`, `shell`, `identity`, and `registry`, `rounding`, `size`
//!   and `text` for values and their texts.

pub mod address;
pub mod bytes;
pub mod channel;
pub mod crypto;
pub mod digest;
pub mod discovery;
pub mod effects;
pub mod handshake;
pub mod identity;
pub mod incoming;
pub mod naming;
pub mod outgoing;
pub mod pending;
pub mod progress;
pub mod protocol;
pub mod registry;
pub mod rounding;
pub mod settings;
pub mod shell;
pub mod size;
pub mod text;
pub mod transfer;
