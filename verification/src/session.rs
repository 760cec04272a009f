//! One connection at a time: what to do with the bytes that have arrived on
//! it and how many of them are used up.
//!
//! The policy on bytes that are no frame, and on frames that are no request,
//! is the same at both ends kept here: the connection is closed.
use crate::commands::{
    spec_parse_command, Command, CommandError, RedisCommands, ReplConf, ReplConfMode,
};
use crate::dispatch::{handle_command, spec_handle_command, Action, DispatchError, Effect};
use crate::keyspace::{Entry, Keyspace};
use crate::server::{spec_record_ack, Leader, Role, ServerStatus, ServerType};
use crate::tokenizer::{spec_decode, tokenize_bytes, RespError};
use vstd::prelude::*;

verus! {

/// Why a connection is to be closed.
#[derive(Debug, Clone, Copy, PartialEq, Eq)]
pub enum CloseReason {
    /// The bytes received are not the start of any frame.
    Malformed,
    /// The frame received is no request.
    NotUnderstood(CommandError),
    /// The request was not carried out.
    Refused(DispatchError),
}

/// What to do next on a client's connection.
#[derive(Debug, PartialEq, Eq)]
pub enum SessionStep {
    /// Read more: the buffer holds no complete frame yet.
    NeedMore,
    /// Close the connection.
    Close(CloseReason),
    /// Carry out `action`, then drop the first `consumed` bytes of the buffer.
    Act { consumed: usize, action: Action },
}

/// The mathematical value of a `SessionStep`.
pub enum SessionEffect {
    NeedMore,
    Close(CloseReason),
    Act { consumed: int, effect: Effect },
}

/// A step on a client's connection seen as a transition.
pub struct SessionOutcome {
    pub step: SessionEffect,
    pub keyspace: Map<Seq<u8>, Entry>,
    pub role: Role,
}

/// What a server makes of the bytes `buffer` that a client has sent: the
/// first frame in it is read as a request and carried out.
pub open spec fn spec_client_step(
    buffer: Seq<u8>,
    keyspace: Map<Seq<u8>, Entry>,
    role: Role,
    now: u64,
) -> SessionOutcome {
    match spec_decode(buffer) {
        Err(RespError::Incomplete) => SessionOutcome {
            step: SessionEffect::NeedMore,
            keyspace,
            role,
        },
        Err(RespError::Malformed) => SessionOutcome {
            step: SessionEffect::Close(CloseReason::Malformed),
            keyspace,
            role,
        },
        Ok((frame, used)) => match spec_parse_command(frame) {
            Err(e) => SessionOutcome {
                step: SessionEffect::Close(CloseReason::NotUnderstood(e)),
                keyspace,
                role,
            },
            Ok(c) => {
                let outcome = spec_handle_command(c, keyspace, role, now);
                SessionOutcome {
                    step: match outcome.result {
                        Ok(effect) => SessionEffect::Act { consumed: used, effect },
                        Err(e) => SessionEffect::Close(CloseReason::Refused(e)),
                    },
                    keyspace: outcome.keyspace,
                    role: outcome.role,
                }
            },
        },
    }
}

/// What to do next on the connection of a registered follower.
#[derive(Debug, Clone, Copy, PartialEq, Eq)]
pub enum InboundStep {
    /// Read more: the buffer holds no complete frame yet.
    NeedMore,
    /// Close the connection.
    Close(CloseReason),
    /// Drop the first bytes of the buffer, as many as given.
    Consumed(usize),
}

/// What a leader makes of the bytes `buffer` that follower `replica_index`
/// has sent: an acknowledgement is noted, any other request is let pass.
pub open spec fn spec_inbound_step(buffer: Seq<u8>, role: Role, replica_index: usize) -> (
    Result<Option<int>, CloseReason>,
    Role,
) {
    match spec_decode(buffer) {
        Err(RespError::Incomplete) => (Ok(None), role),
        Err(RespError::Malformed) => (Err(CloseReason::Malformed), role),
        Ok((frame, used)) => match spec_parse_command(frame) {
            Err(e) => (Err(CloseReason::NotUnderstood(e)), role),
            Ok(c) => match (c, role) {
                (Command::ReplConf(ReplConf::Ack(offset)), Role::Leader(leader)) => (
                    Ok(Some(used)),
                    Role::Leader(
                        Leader {
                            acks: spec_record_ack(leader.acks, replica_index as int, offset),
                            ..leader
                        },
                    ),
                ),
                _ => (Ok(Some(used)), role),
            },
        },
    }
}

/// One step on a client's connection, of which `buffer` holds what has
/// arrived and not been used yet.
pub fn handle_client(
    buffer: &[u8],
    keyspace: &mut Keyspace,
    status: &mut ServerStatus,
    now: u64,
) -> (step: SessionStep)
    ensures
        ({
            let outcome = spec_client_step(buffer@, old(keyspace)@, old(status)@, now);
            &&& final(keyspace)@ == outcome.keyspace
            &&& final(status)@ == outcome.role
            &&& match outcome.step {
                SessionEffect::NeedMore => step is NeedMore,
                SessionEffect::Close(reason) => step matches SessionStep::Close(found) && found
                    == reason,
                SessionEffect::Act { consumed, effect } => {
                    &&& step matches SessionStep::Act { consumed: used, action }
                    &&& used == consumed
                    &&& action@ == effect
                    &&& 0 < used <= buffer@.len()
                },
            }
        }),
{
    let (remainder, tokens) = match tokenize_bytes(buffer) {
        Ok(parts) => parts,
        Err(RespError::Incomplete) => {
            return SessionStep::NeedMore;
        },
        Err(RespError::Malformed) => {
            return SessionStep::Close(CloseReason::Malformed);
        },
    };
    let consumed = buffer.len() - remainder.len();
    let command = match RedisCommands::try_from(tokens) {
        Ok(command) => command,
        Err(e) => {
            return SessionStep::Close(CloseReason::NotUnderstood(e));
        },
    };
    match handle_command(&command, keyspace, status, now) {
        Ok(action) => SessionStep::Act { consumed, action },
        Err(e) => SessionStep::Close(CloseReason::Refused(e)),
    }
}

/// One step on the connection of follower `replica_index`, of which `buffer`
/// holds what has arrived and not been used yet.
pub fn handle_replica_commands(
    buffer: &[u8],
    status: &mut ServerStatus,
    replica_index: usize,
) -> (step: InboundStep)
    ensures
        ({
            let (result, role) = spec_inbound_step(buffer@, old(status)@, replica_index);
            &&& final(status)@ == role
            &&& match result {
                Ok(None) => step is NeedMore,
                Ok(Some(consumed)) => step matches InboundStep::Consumed(used) && used == consumed
                    && 0 < used <= buffer@.len(),
                Err(reason) => step matches InboundStep::Close(found) && found == reason,
            }
        }),
{
    let (remainder, tokens) = match tokenize_bytes(buffer) {
        Ok(parts) => parts,
        Err(RespError::Incomplete) => {
            return InboundStep::NeedMore;
        },
        Err(RespError::Malformed) => {
            return InboundStep::Close(CloseReason::Malformed);
        },
    };
    let consumed = buffer.len() - remainder.len();
    let command = match RedisCommands::try_from(tokens) {
        Ok(command) => command,
        Err(e) => {
            return InboundStep::Close(CloseReason::NotUnderstood(e));
        },
    };
    if let RedisCommands::ReplConf(ReplConfMode::Ack(offset)) = command {
        if let ServerType::Master(state) = &mut status.server_type {
            state.record_ack(replica_index, offset);
        }
    }
    InboundStep::Consumed(consumed)
}

} // verus!
