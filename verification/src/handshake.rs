//! The replica handshake with its primary: a fixed sequence of four
//! exchanges, driven as a state machine. The embedding process performs the
//! network I/O: it sends the request this module names for the current
//! state, reads and decodes one reply where one is expected, and advances.
//! Any connection failure or undecodable reply is fatal to startup.

use crate::command::{CommandV, RedisCommand, ReplconfCommand, ReplconfV};
use vstd::prelude::*;
use vstd::string::StringExecFns;

verus! {

/// How far the handshake has come: which exchanges are acknowledged.
#[derive(Debug, PartialEq, Eq, Clone, Copy, Structural)]
pub enum HandshakeState {
    /// Nothing sent yet.
    Start,
    /// The ping was answered.
    PingAcked,
    /// The listening-port announcement was answered.
    PortAcked,
    /// The capability announcement was answered.
    CapaAcked,
    /// The full-resync request is sent; the handshake is complete.
    Done,
}

/// The request a replica sends in each state; none once the handshake is
/// complete.
pub open spec fn spec_handshake_request(st: HandshakeState, port: Seq<char>) -> Option<CommandV> {
    match st {
        HandshakeState::Start => Some(CommandV::Ping),
        HandshakeState::PingAcked => Some(
            CommandV::Replconf { command: ReplconfV::ListeningPort(port) },
        ),
        HandshakeState::PortAcked => Some(
            CommandV::Replconf { command: ReplconfV::Capa("psync2"@) },
        ),
        HandshakeState::CapaAcked => Some(
            CommandV::Psync { master_replid: "?"@, master_repl_offset: -1i64 },
        ),
        HandshakeState::Done => None,
    }
}

/// The state after the current exchange completes.
pub open spec fn spec_handshake_next(st: HandshakeState) -> HandshakeState {
    match st {
        HandshakeState::Start => HandshakeState::PingAcked,
        HandshakeState::PingAcked => HandshakeState::PortAcked,
        HandshakeState::PortAcked => HandshakeState::CapaAcked,
        HandshakeState::CapaAcked => HandshakeState::Done,
        HandshakeState::Done => HandshakeState::Done,
    }
}

/// Whether the current exchange reads one reply before advancing. The final
/// full-resync request does not: its reply stream is not consumed here.
pub open spec fn spec_expects_reply(st: HandshakeState) -> bool {
    match st {
        HandshakeState::Start => true,
        HandshakeState::PingAcked => true,
        HandshakeState::PortAcked => true,
        HandshakeState::CapaAcked => false,
        HandshakeState::Done => false,
    }
}

/// Why the handshake fails; each is fatal to startup.
#[derive(Debug, PartialEq, Eq, Clone, Copy, Structural)]
pub enum HandshakeError {
    /// The connection to the primary could not be made or broke.
    ConnectionFailed,
    /// A reply did not decode as a protocol message.
    MalformedReply,
}

/// The command to send in state `st`, a replica listening on `own_port`;
/// `None` once the handshake is done.
pub fn handshake_request(st: HandshakeState, own_port: &str) -> (r: Option<RedisCommand>)
    ensures
        match r {
            Some(c) => spec_handshake_request(st, own_port@) == Some(c@),
            None => spec_handshake_request(st, own_port@) is None,
        },
{
    match st {
        HandshakeState::Start => Some(RedisCommand::Ping),
        HandshakeState::PingAcked => Some(
            RedisCommand::Replconf {
                command: ReplconfCommand::ListeningPort(String::from_str(own_port)),
            },
        ),
        HandshakeState::PortAcked => Some(
            RedisCommand::Replconf { command: ReplconfCommand::Capa(String::from_str("psync2")) },
        ),
        HandshakeState::CapaAcked => Some(
            RedisCommand::Psync {
                master_replid: String::from_str("?"),
                master_repl_offset: -1,
            },
        ),
        HandshakeState::Done => None,
    }
}

/// Whether the exchange in state `st` reads one reply before advancing.
pub fn handshake_expects_reply(st: HandshakeState) -> (r: bool)
    ensures
        r == spec_expects_reply(st),
{
    match st {
        HandshakeState::Start => true,
        HandshakeState::PingAcked => true,
        HandshakeState::PortAcked => true,
        HandshakeState::CapaAcked => false,
        HandshakeState::Done => false,
    }
}

/// What the embedding process observed while performing one exchange: the
/// request was written and, where one was owed, a reply was read and
/// decoded; or the connection failed; or a reply was read but did not
/// decode.
#[derive(Debug, PartialEq, Eq, Clone, Copy, Structural)]
pub enum ExchangeOutcome {
    Completed,
    ConnectionLost,
    ReplyMalformed,
}

/// How one exchange moves the handshake: only a completed exchange reaches
/// the next state; any failure yields the error, and the machine never
/// advances past it.
pub open spec fn spec_handshake_step(st: HandshakeState, outcome: ExchangeOutcome) -> Result<
    HandshakeState,
    HandshakeError,
> {
    match outcome {
        ExchangeOutcome::Completed => Ok(spec_handshake_next(st)),
        ExchangeOutcome::ConnectionLost => Err(HandshakeError::ConnectionFailed),
        ExchangeOutcome::ReplyMalformed => Err(HandshakeError::MalformedReply),
    }
}

/// Drives the handshake one exchange forward: the next state when the
/// exchange completed, and the fatal error otherwise. A failed step yields
/// no state, so no later step can be attempted after a failure.
pub fn handshake_step(st: HandshakeState, outcome: ExchangeOutcome) -> (r: Result<
    HandshakeState,
    HandshakeError,
>)
    ensures
        r == spec_handshake_step(st, outcome),
{
    match outcome {
        ExchangeOutcome::Completed => Ok(handshake_advance(st)),
        ExchangeOutcome::ConnectionLost => Err(HandshakeError::ConnectionFailed),
        ExchangeOutcome::ReplyMalformed => Err(HandshakeError::MalformedReply),
    }
}

/// The state after the current exchange completes.
pub fn handshake_advance(st: HandshakeState) -> (r: HandshakeState)
    ensures
        r == spec_handshake_next(st),
{
    match st {
        HandshakeState::Start => HandshakeState::PingAcked,
        HandshakeState::PingAcked => HandshakeState::PortAcked,
        HandshakeState::PortAcked => HandshakeState::CapaAcked,
        HandshakeState::CapaAcked => HandshakeState::Done,
        HandshakeState::Done => HandshakeState::Done,
    }
}

/// The handshake finishes: from the start, four exchanges reach `Done`, and
/// a request is owed in every state before `Done`.
pub proof fn lemma_handshake_terminates(port: Seq<char>)
    ensures
        spec_handshake_next(
            spec_handshake_next(
                spec_handshake_next(spec_handshake_next(HandshakeState::Start)),
            ),
        ) == HandshakeState::Done,
        forall|st: HandshakeState|
            st != HandshakeState::Done ==> spec_handshake_request(st, port) is Some,
{
}

} // verus!
