//! The key exchange that opens a connection.
//!
//! The side that opened the connection writes first and reads second, the
//! side that accepted it the other way round, so neither waits for the other.
//! Public keys pass first, salts second.

use crate::channel::{Channel, ChannelError, SecureStream, SALT_LEN};
use crate::crypto::{
    agree, both_sides_agree, gen_keypair, gen_salt, is_keypair, public_key, session_key, CryptoError,
};
use vstd::prelude::*;

verus! {

/// Which side of a connection this is.
#[derive(Clone, Copy, Debug, PartialEq, Eq, Structural)]
pub enum Role {
    /// The side that opened the connection.
    Initiator,
    /// The side that accepted it.
    Responder,
}

/// How many steps a key exchange has.
pub const STEPS: u8 = 4;

/// Whether the side `role` sends at step `step`; else it receives.
pub open spec fn sends(role: Role, step: int) -> bool {
    (step % 2 == 0) == (role == Role::Initiator)
}

/// Whether public keys pass at step `step`; else salts do.
pub open spec fn passes_keys(step: int) -> bool {
    step < 2
}

/// How many bytes pass at step `step`.
pub open spec fn payload_len(step: int) -> nat {
    if passes_keys(step) {
        32
    } else {
        SALT_LEN as nat
    }
}

/// A key exchange as one side sees it.
pub struct Exchange {
    pub role: Role,
    pub secret: Seq<u8>,
    pub public: Seq<u8>,
    pub salt: Seq<u8>,
    pub their_public: Seq<u8>,
    pub their_salt: Seq<u8>,
    /// How many steps have been taken.
    pub step: int,
}

impl Exchange {
    /// What this side sends at its present step.
    pub open spec fn payload(self) -> Seq<u8> {
        if passes_keys(self.step) {
            self.public
        } else {
            self.salt
        }
    }

    /// The exchange one step further. Where the step receives, it received `bytes`.
    pub open spec fn after(self, bytes: Seq<u8>) -> Exchange {
        let step = self.step + 1;
        if sends(self.role, self.step) {
            Exchange { step, ..self }
        } else if passes_keys(self.step) {
            Exchange { step, their_public: bytes, ..self }
        } else {
            Exchange { step, their_salt: bytes, ..self }
        }
    }

    /// The channel that this side comes to.
    pub open spec fn channel(self) -> Channel {
        Channel {
            key: session_key(self.secret, self.their_public),
            send_salt: self.salt,
            recv_salt: self.their_salt,
            send_counter: 0,
            recv_counter: 0,
        }
    }
}

/// A key exchange under way.
pub struct Handshake {
    role: Role,
    secret: [u8; 32],
    public: [u8; 32],
    salt: [u8; 4],
    their_public: [u8; 32],
    their_salt: [u8; 4],
    step: u8,
}

impl View for Handshake {
    type V = Exchange;

    closed spec fn view(&self) -> Exchange {
        Exchange {
            role: self.role,
            secret: self.secret@,
            public: self.public@,
            salt: self.salt@,
            their_public: self.their_public@,
            their_salt: self.their_salt@,
            step: self.step as int,
        }
    }
}

/// What a side has to do next.
pub enum HandshakeAction {
    /// Send these bytes.
    Send(Vec<u8>),
    /// Receive exactly so many bytes.
    Receive(usize),
    /// The exchange is complete.
    Finish,
}

impl Handshake {
    #[verifier::type_invariant]
    spec fn wf(self) -> bool {
        &&& self.step <= STEPS
        &&& is_keypair(self.secret@, self.public@)
    }

    /// An exchange at its beginning, with the secret key and the salt of this side.
    pub fn new(role: Role, secret: [u8; 32], salt: [u8; 4]) -> (h: Handshake)
        ensures
            h@.role == role,
            h@.secret == secret@,
            h@.salt == salt@,
            h@.step == 0,
            is_fresh(h@, role),
    {
        let public = public_key(secret);
        Handshake {
            role,
            secret,
            public,
            salt,
            their_public: [0u8; 32],
            their_salt: [0u8; 4],
            step: 0,
        }
    }

    /// What this side has to do next.
    pub fn next(&self) -> (action: HandshakeAction)
        ensures
            0 <= self@.step <= STEPS,
            is_keypair(self@.secret, self@.public),
            match action {
                HandshakeAction::Send(bytes) => self@.step < STEPS && sends(
                    self@.role,
                    self@.step,
                ) && bytes@ == self@.payload() && bytes@.len() == payload_len(self@.step),
                HandshakeAction::Receive(n) => self@.step < STEPS && !sends(
                    self@.role,
                    self@.step,
                ) && n == payload_len(self@.step),
                HandshakeAction::Finish => self@.step == STEPS,
            },
    {
        proof {
            use_type_invariant(self);
        }
        if self.step == STEPS {
            return HandshakeAction::Finish;
        }
        let first: bool = self.step % 2 == 0;
        let opened: bool = match self.role {
            Role::Initiator => true,
            Role::Responder => false,
        };
        if first == opened {
            if self.step < 2 {
                HandshakeAction::Send(vstd::slice::slice_to_vec(self.public.as_slice()))
            } else {
                HandshakeAction::Send(vstd::slice::slice_to_vec(self.salt.as_slice()))
            }
        } else if self.step < 2 {
            HandshakeAction::Receive(32)
        } else {
            HandshakeAction::Receive(SALT_LEN)
        }
    }

    /// Takes one step: what was to be sent has gone out, or `bytes` has come in.
    pub fn advance(self, bytes: &[u8]) -> (h: Handshake)
        requires
            self@.step < STEPS,
            !sends(self@.role, self@.step) ==> bytes@.len() == payload_len(self@.step),
        ensures
            h@ == self@.after(bytes@),
    {
        proof {
            use_type_invariant(&self);
        }
        let first: bool = self.step % 2 == 0;
        let opened: bool = match self.role {
            Role::Initiator => true,
            Role::Responder => false,
        };
        let step: u8 = self.step + 1;
        if first == opened {
            Handshake { step, ..self }
        } else if self.step < 2 {
            let their_public = array_of_32(bytes);
            Handshake { step, their_public, ..self }
        } else {
            let their_salt: [u8; 4] = [bytes[0], bytes[1], bytes[2], bytes[3]];
            proof {
                assert(their_salt@ == bytes@);
            }
            Handshake { step, their_salt, ..self }
        }
    }

    /// The channel that a complete exchange leads to. An exchange in which both sides
    /// have one salt leads to none: the two directions share the key, and the salts
    /// keep their nonces apart.
    pub fn finish(self) -> (stream: Result<SecureStream, ChannelError>)
        requires
            self@.step == STEPS,
        ensures
            stream matches Ok(stream) ==> {
                &&& stream@ == self@.channel()
                &&& stream@.is_sound()
                &&& stream@.send_salt != stream@.recv_salt
            },
            stream is Ok <==> self@.salt != self@.their_salt,
            stream matches Err(e) ==> e == ChannelError::EqualSalts,
    {
        let key = agree(self.secret, self.their_public);
        SecureStream::new(key, self.salt, self.their_salt)
    }
}

/// Thirty-two bytes as an array.
fn array_of_32(bytes: &[u8]) -> (array: [u8; 32])
    requires
        bytes@.len() == 32,
    ensures
        array@ == bytes@,
{
    let mut array: [u8; 32] = [0u8; 32];
    let mut i: usize = 0;
    while i < 32
        invariant
            i <= 32,
            bytes@.len() == 32,
            forall|j: int| 0 <= j < i ==> array@[j] == bytes@[j],
        decreases 32 - i,
    {
        array[i] = bytes[i];
        i += 1;
    }
    proof {
        assert(array@ == bytes@);
    }
    array
}

/// A fresh exchange: its public key is that of its secret key, and what it will send
/// has its length.
pub open spec fn is_fresh(h: Exchange, role: Role) -> bool {
    &&& h.role == role
    &&& h.step == 0
    &&& is_keypair(h.secret, h.public)
    &&& h.public.len() == 32
    &&& h.salt.len() == SALT_LEN
}

impl SecureStream {
    /// Begins the key exchange of the side that opens a connection.
    pub fn handshake_initiator() -> (h: Result<Handshake, CryptoError>)
        ensures
            h matches Ok(h) ==> is_fresh(h@, Role::Initiator),
            h matches Err(e) ==> e == CryptoError::NoRandomness,
    {
        fresh_handshake(Role::Initiator)
    }

    /// Begins the key exchange of the side that accepts a connection.
    pub fn handshake_responder() -> (h: Result<Handshake, CryptoError>)
        ensures
            h matches Ok(h) ==> is_fresh(h@, Role::Responder),
            h matches Err(e) ==> e == CryptoError::NoRandomness,
    {
        fresh_handshake(Role::Responder)
    }
}

/// The exchange with the keys and the salt that were drawn, if both were.
pub fn handshake_of(
    role: Role,
    pair: Result<([u8; 32], [u8; 32]), CryptoError>,
    salt: Result<[u8; 4], CryptoError>,
) -> (h: Result<Handshake, CryptoError>)
    ensures
        match (pair, salt) {
            (Ok((secret, _)), Ok(salt)) => {
                &&& h matches Ok(h)
                &&& is_fresh(h@, role)
                &&& h@.secret == secret@
                &&& h@.salt == salt@
            },
            (Err(e), _) => h matches Err(x) && x == e,
            (_, Err(e)) => h matches Err(x) && x == e,
        },
{
    match pair {
        Ok((secret, _)) => match salt {
            Ok(salt) => Ok(Handshake::new(role, secret, salt)),
            Err(e) => Err(e),
        },
        Err(e) => Err(e),
    }
}

/// An exchange with a fresh secret key and a fresh salt.
fn fresh_handshake(role: Role) -> (h: Result<Handshake, CryptoError>)
    ensures
        h matches Ok(h) ==> is_fresh(h@, role),
        h matches Err(e) ==> e == CryptoError::NoRandomness,
{
    handshake_of(role, gen_keypair(), gen_salt())
}

/// At every step one side sends what the other side receives, so neither waits
/// for the other.
pub proof fn steps_are_mirrored(step: int)
    ensures
        sends(Role::Initiator, step) != sends(Role::Responder, step),
{
}

/// One step of both sides: what the one sends the other receives.
pub open spec fn joint_step(a: Exchange, b: Exchange) -> (Exchange, Exchange) {
    if sends(a.role, a.step) {
        (a.after(Seq::empty()), b.after(a.payload()))
    } else {
        (a.after(b.payload()), b.after(Seq::empty()))
    }
}

/// When both sides have taken all steps, each has sent its public key of thirty-two
/// bytes and then its salt of four, the responder each after the initiator. They hold
/// one key, what the one sends under is what the other receives under, and all counters
/// are at zero. Either both have a channel or, where their salts are equal, neither.
pub proof fn both_sides_come_to_one_channel(initiator: Exchange, responder: Exchange)
    requires
        is_fresh(initiator, Role::Initiator),
        is_fresh(responder, Role::Responder),
    ensures
        ({
            let (a1, b1) = joint_step(initiator, responder);
            let (a2, b2) = joint_step(a1, b1);
            let (a3, b3) = joint_step(a2, b2);
            let (a, b) = joint_step(a3, b3);
            &&& sends(Role::Initiator, initiator.step) && initiator.payload() == initiator.public
            &&& sends(Role::Responder, b1.step) && b1.payload() == responder.public
            &&& sends(Role::Initiator, a2.step) && a2.payload() == initiator.salt
            &&& sends(Role::Responder, b3.step) && b3.payload() == responder.salt
            &&& initiator.payload().len() == payload_len(0) == 32
            &&& b1.payload().len() == payload_len(1) == 32
            &&& a2.payload().len() == payload_len(2) == 4
            &&& b3.payload().len() == payload_len(3) == 4
            &&& a.step == STEPS
            &&& b.step == STEPS
            &&& a.channel().key == b.channel().key
            &&& a.channel().send_salt == b.channel().recv_salt
            &&& a.channel().recv_salt == b.channel().send_salt
            &&& a.channel().send_counter == 0 && a.channel().recv_counter == 0
            &&& b.channel().send_counter == 0 && b.channel().recv_counter == 0
            &&& a.channel().key == session_key(initiator.secret, responder.public)
            &&& (a.salt != a.their_salt) == (b.salt != b.their_salt)
            &&& (a.salt != a.their_salt) == (initiator.salt != responder.salt)
        }),
{
    both_sides_agree(initiator.secret, initiator.public, responder.secret, responder.public);
}

} // verus!
