//! The anonymous two-message Noise handshake (`Noise_NN`), as a state machine
//! that is handed the peer's messages and hands back the framed messages to
//! send; the connection itself is driven by the caller.
use vstd::prelude::*;
use crate::error::Error;
use crate::framing::{be32, be32_value, decode_len, with_len_prefix};
use crate::stream::TransportSession;

verus! {

/// The Noise protocol this handshake runs: the anonymous two-message `NN`
/// pattern over X25519, ChaCha20-Poly1305 and BLAKE2s.
pub const NOISE_PATTERN: &'static str = "Noise_NN_25519_ChaChaPoly_BLAKE2s";

/// Room for one handshake message.
pub const HANDSHAKE_BUFFER_SIZE: usize = 1024;

#[verifier::external_type_specification]
#[verifier::external_body]
pub struct ExHandshakeState(snow::HandshakeState);

#[derive(Clone, Copy, Debug, PartialEq, Eq, Structural)]
pub enum Role {
    Initiator,
    Responder,
}

#[derive(Clone, Copy, Debug, PartialEq, Eq, Structural)]
pub enum HandshakePhase {
    /// An initiator that has not written its first message.
    Uninitialized,
    /// An initiator waiting for the responder's reply.
    MessageSent,
    /// A responder waiting for the initiator's message.
    AwaitingMessage,
    /// Both messages exchanged: the transport keys can be taken.
    TransportReady,
    /// A message was refused; the attempt is over.
    Failed,
}

/// Relies on `snow::Builder::new(..).remote_public_key(..).build_initiator()`
/// after parsing `params` as `snow::params::NoiseParams`: for `NOISE_PATTERN`
/// the default resolver supplies every primitive and `NN` needs no static
/// key, so `Builder::build` succeeds.
#[verifier::external_body]
fn build_initiator(params: &str, server: &[u8; 32]) -> (r: Option<snow::HandshakeState>)
    ensures
        params@ == NOISE_PATTERN@ ==> r is Some,
{
    let params: snow::params::NoiseParams = params.parse().ok()?;
    snow::Builder::new(params).remote_public_key(server).build_initiator().ok()
}

/// Relies on `snow::Builder::new(..).local_private_key(..).build_responder()`
/// after parsing `params` as `snow::params::NoiseParams`: for `NOISE_PATTERN`
/// the default resolver supplies every primitive, so `Builder::build`
/// succeeds.
#[verifier::external_body]
fn build_responder(params: &str, secret: &[u8; 32]) -> (r: Option<snow::HandshakeState>)
    ensures
        params@ == NOISE_PATTERN@ ==> r is Some,
{
    let params: snow::params::NoiseParams = params.parse().ok()?;
    snow::Builder::new(params).local_private_key(secret).build_responder().ok()
}

/// Relies on `snow::HandshakeState::write_message`: the next handshake
/// message, with an empty payload, written into a buffer of
/// `HANDSHAKE_BUFFER_SIZE` bytes, so it is no longer than that.
#[verifier::external_body]
fn handshake_write(state: &mut snow::HandshakeState) -> (r: Option<Vec<u8>>)
    ensures
        r is Some ==> r->0@.len() <= HANDSHAKE_BUFFER_SIZE,
{
    let mut buf = vec![0u8; HANDSHAKE_BUFFER_SIZE];
    match state.write_message(&[], &mut buf) {
        Ok(n) => {
            buf.truncate(n);
            Some(buf)
        },
        Err(_) => None,
    }
}

/// Relies on `snow::HandshakeState::read_message`: whether the peer's
/// handshake message was accepted.
#[verifier::external_body]
fn handshake_read(state: &mut snow::HandshakeState, msg: &[u8]) -> (r: bool)
{
    let mut payload = vec![0u8; HANDSHAKE_BUFFER_SIZE];
    state.read_message(msg, &mut payload).is_ok()
}

/// Relies on `snow::HandshakeState::into_transport_mode`.
#[verifier::external_body]
fn into_transport_mode(state: snow::HandshakeState) -> (r: Option<snow::TransportState>)
{
    state.into_transport_mode().ok()
}

/// `f` is a handshake message of at most `HANDSHAKE_BUFFER_SIZE` bytes behind
/// its big-endian length.
pub open spec fn is_framed_handshake(f: Seq<u8>) -> bool {
    exists|m: Seq<u8>| m.len() <= HANDSHAKE_BUFFER_SIZE && f == be32(m.len() as u32) + m
}

/// Checks a handshake message's length prefix against the buffer size.
pub fn accept_length(prefix: &[u8; 4]) -> (r: Result<usize, Error>)
    ensures
        be32_value(prefix@) <= HANDSHAKE_BUFFER_SIZE ==> r == Ok::<usize, Error>(
            be32_value(prefix@) as usize,
        ),
        be32_value(prefix@) > HANDSHAKE_BUFFER_SIZE ==> r == Err::<usize, Error>(
            Error::ProtocolViolation,
        ),
{
    let n = decode_len(prefix);
    if n as usize > HANDSHAKE_BUFFER_SIZE {
        Err(Error::ProtocolViolation)
    } else {
        Ok(n as usize)
    }
}

/// One side of a handshake in progress.
pub struct HandshakeNegotiator {
    role: Role,
    phase: HandshakePhase,
    state: snow::HandshakeState,
}

impl HandshakeNegotiator {
    pub closed spec fn role(&self) -> Role {
        self.role
    }

    pub closed spec fn phase(&self) -> HandshakePhase {
        self.phase
    }

    pub fn current_phase(&self) -> (r: HandshakePhase)
        ensures
            r == self.phase(),
    {
        self.phase
    }

    /// An initiator addressed to the responder's public key.
    pub fn initiator(server: &[u8; 32]) -> (r: Result<HandshakeNegotiator, Error>)
        ensures
            r is Ok,
            r matches Ok(h) ==> h.role() == Role::Initiator && h.phase()
                == HandshakePhase::Uninitialized,
    {
        match build_initiator(NOISE_PATTERN, server) {
            Some(state) => Ok(
                HandshakeNegotiator { role: Role::Initiator, phase: HandshakePhase::Uninitialized, state },
            ),
            None => Err(Error::ProtocolViolation),
        }
    }

    /// A responder holding its secret key.
    pub fn responder(secret: &[u8; 32]) -> (r: Result<HandshakeNegotiator, Error>)
        ensures
            r is Ok,
            r matches Ok(h) ==> h.role() == Role::Responder && h.phase()
                == HandshakePhase::AwaitingMessage,
    {
        match build_responder(NOISE_PATTERN, secret) {
            Some(state) => Ok(
                HandshakeNegotiator { role: Role::Responder, phase: HandshakePhase::AwaitingMessage, state },
            ),
            None => Err(Error::ProtocolViolation),
        }
    }

    /// The initiator's first message, framed behind its length. Only an
    /// uninitialized initiator may start; anything else is `InvalidState`.
    pub fn start(&mut self) -> (r: Result<Vec<u8>, Error>)
        ensures
            final(self).role() == old(self).role(),
            old(self).phase() != HandshakePhase::Uninitialized ==> r == Err::<Vec<u8>, Error>(
                Error::InvalidState,
            ) && final(self).phase() == old(self).phase(),
            old(self).phase() == HandshakePhase::Uninitialized ==> match r {
                Ok(f) => final(self).phase() == HandshakePhase::MessageSent && is_framed_handshake(
                    f@,
                ),
                Err(e) => e == Error::ProtocolViolation && final(self).phase()
                    == HandshakePhase::Failed,
            },
    {
        if self.phase != HandshakePhase::Uninitialized {
            return Err(Error::InvalidState);
        }
        match handshake_write(&mut self.state) {
            Some(m) => {
                self.phase = HandshakePhase::MessageSent;
                Ok(with_len_prefix(&m))
            },
            None => {
                self.phase = HandshakePhase::Failed;
                Err(Error::ProtocolViolation)
            },
        }
    }

    /// Processes the peer's handshake message (without its length prefix).
    /// A responder answers with its own framed message; an initiator has
    /// nothing more to send. Both are then ready for transport. A message in
    /// any other phase, or longer than the buffer, is a `ProtocolViolation`.
    pub fn receive(&mut self, msg: &[u8]) -> (r: Result<Option<Vec<u8>>, Error>)
        ensures
            final(self).role() == old(self).role(),
            old(self).phase() != HandshakePhase::MessageSent && old(self).phase()
                != HandshakePhase::AwaitingMessage ==> r == Err::<Option<Vec<u8>>, Error>(
                Error::ProtocolViolation,
            ) && final(self).phase() == old(self).phase(),
            old(self).phase() == HandshakePhase::MessageSent || old(self).phase()
                == HandshakePhase::AwaitingMessage ==> match r {
                Ok(reply) => final(self).phase() == HandshakePhase::TransportReady && msg@.len()
                    <= HANDSHAKE_BUFFER_SIZE && (old(self).phase() == HandshakePhase::MessageSent
                    ==> reply is None) && (old(self).phase() == HandshakePhase::AwaitingMessage
                    ==> reply is Some && is_framed_handshake(reply->0@)),
                Err(e) => e == Error::ProtocolViolation && final(self).phase()
                    == HandshakePhase::Failed,
            },
    {
        let awaiting = self.phase == HandshakePhase::AwaitingMessage;
        if self.phase != HandshakePhase::MessageSent && !awaiting {
            return Err(Error::ProtocolViolation);
        }
        if msg.len() > HANDSHAKE_BUFFER_SIZE || !handshake_read(&mut self.state, msg) {
            self.phase = HandshakePhase::Failed;
            return Err(Error::ProtocolViolation);
        }
        if !awaiting {
            self.phase = HandshakePhase::TransportReady;
            return Ok(None);
        }
        match handshake_write(&mut self.state) {
            Some(m) => {
                self.phase = HandshakePhase::TransportReady;
                Ok(Some(with_len_prefix(&m)))
            },
            None => {
                self.phase = HandshakePhase::Failed;
                Err(Error::ProtocolViolation)
            },
        }
    }

    /// The transport state of a completed handshake; before that,
    /// `InvalidState`.
    pub fn into_transport(self) -> (r: Result<TransportSession, Error>)
        ensures
            self.phase() != HandshakePhase::TransportReady ==> r == Err::<TransportSession, Error>(
                Error::InvalidState,
            ),
            r matches Ok(s) ==> s.sent().len() == 0 && s.sealed().len() == 0 && s.opened().len() == 0
                && s.received().len() == 0,
            self.phase() == HandshakePhase::TransportReady ==> r != Err::<TransportSession, Error>(
                Error::InvalidState,
            ),
            r matches Err(e) ==> e == Error::InvalidState || e == Error::ProtocolViolation,
    {
        if self.phase != HandshakePhase::TransportReady {
            return Err(Error::InvalidState);
        }
        match into_transport_mode(self.state) {
            Some(t) => Ok(TransportSession::new(t)),
            None => Err(Error::ProtocolViolation),
        }
    }
}

} // verus!
