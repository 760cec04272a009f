//! What a server does with a request: the change to keyspace and role state,
//! and what is to be sent to whom.
//!
//! Nothing here touches a socket. `handle_command` decides; whoever holds the
//! sockets carries the decision out. `WAIT` is the one request that takes
//! time: `handle_command` starts it and `wait_poll` is asked, again and again,
//! whether it is over.
use crate::ascii::{ascii_bytes, bytes_eq, copy_bytes, literal};
use crate::commands::{
    spec_render, Command, InfoSection, RedisCommands, ReplConf, ReplConfMode, SetOptions,
};
use crate::decimal::{nat_digits, push_digits};
use crate::keyspace::{spec_lookup, Entry, Keyspace};
use crate::server::{
    spec_count_synced, spec_info_text, Leader, MasterStatus, Role, ServerStatus, ServerType,
};
use crate::tokenizer::{crlf, spec_encode, Frame, Resp, BULK_TAG, CR, LF};
use vstd::prelude::*;

verus! {

/// Why a request was not carried out.
#[derive(Debug, Clone, Copy, PartialEq, Eq)]
pub enum DispatchError {
    /// A write was asked of a follower.
    ReadOnlyReplica,
    /// A resync was asked of a follower.
    NotMaster,
    /// A resync other than the full one, `PSYNC ? -1`.
    UnsupportedSync,
    /// The replication offset would pass the largest 64-bit number.
    OffsetOverflow,
}

/// What is to be done about a request.
#[derive(Debug, Clone, PartialEq, Eq)]
pub enum Action {
    /// Write `reply` to the client.
    Reply(Resp),
    /// Write `stream` to every follower, then `reply` to the client.
    Propagate { reply: Resp, stream: Vec<u8> },
    /// Write `payload` to the client as it is and hand its socket to the
    /// follower registry at place `replica_index`; the session ends.
    FullResync { payload: Vec<u8>, replica_index: usize },
    /// Write `probe` to every follower, then ask `wait_poll` with `target`,
    /// `num_replicas` and `timeout` until it gives the reply.
    Probe { probe: Vec<u8>, target: u64, num_replicas: i32, timeout: u64 },
}

/// The mathematical value of an `Action`.
pub enum Effect {
    Reply(Frame),
    Propagate { reply: Frame, stream: Seq<u8> },
    FullResync { payload: Seq<u8>, replica_index: usize },
    Probe { probe: Seq<u8>, target: u64, num_replicas: i32, timeout: u64 },
}

impl View for Action {
    type V = Effect;

    open spec fn view(&self) -> Effect {
        match self {
            Action::Reply(reply) => Effect::Reply(reply@),
            Action::Propagate { reply, stream } => Effect::Propagate {
                reply: reply@,
                stream: stream@,
            },
            Action::FullResync { payload, replica_index } => Effect::FullResync {
                payload: payload@,
                replica_index: *replica_index,
            },
            Action::Probe { probe, target, num_replicas, timeout } => Effect::Probe {
                probe: probe@,
                target: *target,
                num_replicas: *num_replicas,
                timeout: *timeout,
            },
        }
    }
}

/// A request seen as a transition: what comes of it and the state after it.
pub struct Outcome {
    pub result: Result<Effect, DispatchError>,
    pub keyspace: Map<Seq<u8>, Entry>,
    pub role: Role,
}

/// The reply `+OK`.
pub open spec fn ok_frame() -> Frame {
    Frame::SimpleString(ascii_bytes("OK"@))
}

/// The reply `+PONG`.
pub open spec fn pong_frame() -> Frame {
    Frame::SimpleString(ascii_bytes("PONG"@))
}

/// A count as an integer reply.
pub open spec fn spec_count_reply(count: nat) -> Frame {
    Frame::Integer(
        if count <= i64::MAX {
            count as i64
        } else {
            i64::MAX
        },
    )
}

/// The line by which a leader grants a full resync.
pub open spec fn spec_full_resync_line(leader: Leader) -> Seq<u8> {
    ascii_bytes("FULLRESYNC "@) + leader.repl_id + seq![32u8] + nat_digits(
        leader.repl_offset as nat,
    )
}

/// What a leader sends to a follower that asks for a full resync: the grant,
/// then the snapshot behind its length, with no line break after it.
pub open spec fn spec_full_resync_payload(leader: Leader) -> Seq<u8> {
    spec_encode(Frame::SimpleString(spec_full_resync_line(leader))) + seq![36u8] + nat_digits(
        leader.snapshot.len(),
    ) + crlf() + leader.snapshot
}

/// The request by which a leader asks its followers for their offsets.
pub open spec fn getack_command() -> Command {
    Command::ReplConf(ReplConf::GetAck(ascii_bytes("*"@)))
}

/// The bytes by which a request travels to the followers.
pub open spec fn spec_stream_of(c: Command) -> Seq<u8> {
    spec_encode(spec_render(c))
}

/// What a leader makes of a write: the value is stored, the write goes out to
/// the followers, and both offsets move past it.
pub open spec fn spec_handle_set(
    c: Command,
    keyspace: Map<Seq<u8>, Entry>,
    role: Role,
    now: u64,
) -> Outcome
    recommends
        c is SetKey,
{
    let opts = c->SetKey_0;
    let stream = spec_stream_of(c);
    match role {
        Role::Follower { .. } => Outcome {
            result: Err(DispatchError::ReadOnlyReplica),
            keyspace,
            role,
        },
        Role::Leader(leader) => {
            if leader.repl_offset + stream.len() > u64::MAX {
                Outcome { result: Err(DispatchError::OffsetOverflow), keyspace, role }
            } else {
                let offset = (leader.repl_offset + stream.len()) as u64;
                Outcome {
                    result: Ok(Effect::Propagate { reply: ok_frame(), stream }),
                    keyspace: keyspace.insert(
                        opts.key,
                        Entry { value: opts.value, expire: opts.expire, timestamp: now },
                    ),
                    role: Role::Leader(
                        Leader { repl_offset: offset, data_offset: offset, ..leader },
                    ),
                }
            }
        },
    }
}

/// What a server makes of a request for a resync.
pub open spec fn spec_handle_psync(
    repl_id: Seq<u8>,
    offset: i64,
    keyspace: Map<Seq<u8>, Entry>,
    role: Role,
) -> Outcome {
    if !(repl_id == ascii_bytes("?"@) && offset == -1) {
        Outcome { result: Err(DispatchError::UnsupportedSync), keyspace, role }
    } else {
        match role {
            Role::Follower { .. } => Outcome {
                result: Err(DispatchError::NotMaster),
                keyspace,
                role,
            },
            Role::Leader(leader) => Outcome {
                result: Ok(
                    Effect::FullResync {
                        payload: spec_full_resync_payload(leader),
                        replica_index: leader.acks.len() as usize,
                    },
                ),
                keyspace,
                role: Role::Leader(Leader { acks: leader.acks.push(0), ..leader }),
            },
        }
    }
}

/// What a server makes of `WAIT`: with no write ever replicated the answer is
/// the number of followers; else the followers are probed, which moves the
/// replication offset but not the target.
pub open spec fn spec_handle_wait(
    num_replicas: i32,
    timeout: u64,
    keyspace: Map<Seq<u8>, Entry>,
    role: Role,
) -> Outcome {
    match role {
        Role::Follower { .. } => Outcome {
            result: Ok(Effect::Reply(Frame::Integer(0))),
            keyspace,
            role,
        },
        Role::Leader(leader) => {
            let probe = spec_stream_of(getack_command());
            if leader.data_offset == 0 {
                Outcome {
                    result: Ok(Effect::Reply(spec_count_reply(leader.acks.len()))),
                    keyspace,
                    role,
                }
            } else if leader.repl_offset + probe.len() > u64::MAX {
                Outcome { result: Err(DispatchError::OffsetOverflow), keyspace, role }
            } else {
                Outcome {
                    result: Ok(
                        Effect::Probe {
                            probe,
                            target: leader.data_offset,
                            num_replicas,
                            timeout,
                        },
                    ),
                    keyspace,
                    role: Role::Leader(
                        Leader {
                            repl_offset: (leader.repl_offset + probe.len()) as u64,
                            ..leader
                        },
                    ),
                }
            }
        },
    }
}

/// What a server in role `role` with keyspace `keyspace` makes of request
/// `c` at time `now`.
pub open spec fn spec_handle_command(
    c: Command,
    keyspace: Map<Seq<u8>, Entry>,
    role: Role,
    now: u64,
) -> Outcome {
    match c {
        Command::Echo(text) => Outcome {
            result: Ok(Effect::Reply(Frame::SimpleString(text))),
            keyspace,
            role,
        },
        Command::Ping => Outcome { result: Ok(Effect::Reply(pong_frame())), keyspace, role },
        Command::SetKey(_) => spec_handle_set(c, keyspace, role, now),
        Command::Get(key) => Outcome {
            result: Ok(
                Effect::Reply(
                    match spec_lookup(keyspace, key, now) {
                        Some(value) => Frame::BulkString(value),
                        None => Frame::NullBulkString,
                    },
                ),
            ),
            keyspace,
            role,
        },
        Command::Info(_) => Outcome {
            result: Ok(Effect::Reply(Frame::BulkString(spec_info_text(role)))),
            keyspace,
            role,
        },
        Command::ReplConf(_) => Outcome { result: Ok(Effect::Reply(ok_frame())), keyspace, role },
        Command::PSync(repl_id, offset) => spec_handle_psync(repl_id, offset, keyspace, role),
        Command::Wait(num_replicas, timeout) => spec_handle_wait(
            num_replicas,
            timeout,
            keyspace,
            role,
        ),
    }
}

/// Whether a `WAIT` is over, and with what reply: it is over once
/// `num_replicas` followers have acknowledged `target` or `timeout`
/// milliseconds have passed, and the reply is the number that have
/// acknowledged by then.
pub open spec fn spec_wait_poll(
    role: Role,
    target: u64,
    num_replicas: i32,
    elapsed: u64,
    timeout: u64,
) -> Option<Frame> {
    let count = match role {
        Role::Leader(leader) => spec_count_synced(leader.acks, target),
        Role::Follower { .. } => 0,
    };
    if count >= num_replicas || elapsed >= timeout {
        Some(spec_count_reply(count))
    } else {
        None
    }
}

/// A count as an integer reply.
fn count_reply(count: usize) -> (r: Resp)
    ensures
        r@ == spec_count_reply(count as nat),
{
    if count as u64 <= i64::MAX as u64 {
        Resp::Integer(count as i64)
    } else {
        Resp::Integer(i64::MAX)
    }
}

/// The reply `+OK`.
fn ok_reply() -> (r: Resp)
    ensures
        r@ == ok_frame(),
{
    proof {
        reveal_strlit("OK");
    }
    Resp::SimpleString(literal("OK"))
}

/// The bytes by which `command` travels to the followers.
pub fn encode_command(command: &RedisCommands) -> (stream: Vec<u8>)
    ensures
        stream@ == spec_stream_of(command@),
{
    Resp::from(command.clone()).encode_to_bytes()
}

/// The grant of a full resync with the snapshot behind it.
fn full_resync_payload(master: &MasterStatus) -> (payload: Vec<u8>)
    ensures
        payload@ == spec_full_resync_payload(master@),
{
    proof {
        reveal_strlit("FULLRESYNC ");
    }
    let mut line = literal("FULLRESYNC ");
    line.extend_from_slice(master.repl_id.as_slice());
    line.push(32);
    push_digits(master.repl_offset, &mut line);
    proof {
        assert(line@ =~= spec_full_resync_line(master@));
    }
    let mut payload = Resp::SimpleString(line).encode_to_bytes();
    payload.push(BULK_TAG);
    push_digits(master.snapshot.len() as u64, &mut payload);
    payload.push(CR);
    payload.push(LF);
    payload.extend_from_slice(master.snapshot.as_slice());
    proof {
        assert(payload@ =~= spec_full_resync_payload(master@));
    }
    payload
}

/// Carries out a write.
fn handle_set(
    command: &RedisCommands,
    options: &SetOptions,
    keyspace: &mut Keyspace,
    status: &mut ServerStatus,
    now: u64,
) -> (r: Result<Action, DispatchError>)
    requires
        command@ == Command::SetKey(options@),
    ensures
        ({
            let outcome = spec_handle_set(command@, old(keyspace)@, old(status)@, now);
            &&& final(keyspace)@ == outcome.keyspace
            &&& final(status)@ == outcome.role
            &&& match outcome.result {
                Ok(effect) => r matches Ok(action) && action@ == effect,
                Err(e) => r matches Err(x) && x == e,
            }
        }),
{
    match &mut status.server_type {
        ServerType::Replica(_) => Err(DispatchError::ReadOnlyReplica),
        ServerType::Master(master) => {
            let stream = encode_command(command);
            if stream.len() as u64 > u64::MAX - master.repl_offset {
                return Err(DispatchError::OffsetOverflow);
            }
            keyspace.set(
                copy_bytes(options.key.as_slice()),
                copy_bytes(options.value.as_slice()),
                options.expire,
                now,
            );
            master.repl_offset = master.repl_offset + stream.len() as u64;
            master.repl_data_offset = master.repl_offset;
            Ok(Action::Propagate { reply: ok_reply(), stream })
        },
    }
}

/// Carries out a request for a resync.
fn handle_psync(repl_id: &Vec<u8>, offset: i64, status: &mut ServerStatus) -> (r: Result<
    Action,
    DispatchError,
>)
    ensures
        ({
            let keyspace = Map::<Seq<u8>, Entry>::empty();
            let outcome = spec_handle_psync(repl_id@, offset, keyspace, old(status)@);
            &&& final(status)@ == outcome.role
            &&& match outcome.result {
                Ok(effect) => r matches Ok(action) && action@ == effect,
                Err(e) => r matches Err(x) && x == e,
            }
        }),
{
    proof {
        reveal_strlit("?");
    }
    let any = literal("?");
    if !(bytes_eq(repl_id.as_slice(), any.as_slice()) && offset == -1) {
        return Err(DispatchError::UnsupportedSync);
    }
    match &mut status.server_type {
        ServerType::Replica(_) => Err(DispatchError::NotMaster),
        ServerType::Master(master) => {
            let payload = full_resync_payload(master);
            let replica_index = master.add_replica();
            Ok(Action::FullResync { payload, replica_index })
        },
    }
}

/// Starts a `WAIT`.
fn handle_wait(num_replicas: i32, timeout: u64, status: &mut ServerStatus) -> (r: Result<
    Action,
    DispatchError,
>)
    ensures
        ({
            let keyspace = Map::<Seq<u8>, Entry>::empty();
            let outcome = spec_handle_wait(num_replicas, timeout, keyspace, old(status)@);
            &&& final(status)@ == outcome.role
            &&& match outcome.result {
                Ok(effect) => r matches Ok(action) && action@ == effect,
                Err(e) => r matches Err(x) && x == e,
            }
        }),
{
    proof {
        reveal_strlit("*");
    }
    match &mut status.server_type {
        ServerType::Replica(_) => Ok(Action::Reply(Resp::Integer(0))),
        ServerType::Master(master) => {
            if master.repl_data_offset == 0 {
                return Ok(Action::Reply(count_reply(master.replicas_data.len())));
            }
            let getack = RedisCommands::ReplConf(ReplConfMode::GetAck(literal("*")));
            let probe = encode_command(&getack);
            if probe.len() as u64 > u64::MAX - master.repl_offset {
                return Err(DispatchError::OffsetOverflow);
            }
            let target = master.repl_data_offset;
            master.repl_offset = master.repl_offset + probe.len() as u64;
            Ok(Action::Probe { probe, target, num_replicas, timeout })
        },
    }
}

/// Carries out `command` at time `now` on `keyspace` and `status`, and says
/// what is to be sent.
pub fn handle_command(
    command: &RedisCommands,
    keyspace: &mut Keyspace,
    status: &mut ServerStatus,
    now: u64,
) -> (r: Result<Action, DispatchError>)
    ensures
        ({
            let outcome = spec_handle_command(command@, old(keyspace)@, old(status)@, now);
            &&& final(keyspace)@ == outcome.keyspace
            &&& final(status)@ == outcome.role
            &&& match outcome.result {
                Ok(effect) => r matches Ok(action) && action@ == effect,
                Err(e) => r matches Err(x) && x == e,
            }
        }),
{
    match command {
        RedisCommands::Echo(text) => Ok(
            Action::Reply(Resp::SimpleString(copy_bytes(text.as_slice()))),
        ),
        RedisCommands::Ping => {
            proof {
                reveal_strlit("PONG");
            }
            Ok(Action::Reply(Resp::SimpleString(literal("PONG"))))
        },
        RedisCommands::SetKey(options) => handle_set(command, options, keyspace, status, now),
        RedisCommands::Get(key) => {
            let response = match keyspace.get(key.as_slice(), now) {
                Some(value) => Resp::BulkString(value),
                None => Resp::NullBulkString,
            };
            Ok(Action::Reply(response))
        },
        RedisCommands::Info(info_section) => {
            let info = status.server_type.encode_to_info_string();
            match info_section {
                Some(InfoSection::Replication) => Ok(Action::Reply(Resp::BulkString(info))),
                None => Ok(Action::Reply(Resp::BulkString(info))),
            }
        },
        RedisCommands::ReplConf(_) => Ok(Action::Reply(ok_reply())),
        RedisCommands::PSync(repl_id, repl_offset) => handle_psync(repl_id, *repl_offset, status),
        RedisCommands::Wait(num_replicas, timeout) => handle_wait(*num_replicas, *timeout, status),
    }
}

/// Whether the `WAIT` that was started with `target`, `num_replicas` and
/// `timeout` is over after `elapsed` milliseconds, and with what reply.
pub fn wait_poll(
    status: &ServerStatus,
    target: u64,
    num_replicas: i32,
    elapsed: u64,
    timeout: u64,
) -> (r: Option<Resp>)
    ensures
        match spec_wait_poll(status@, target, num_replicas, elapsed, timeout) {
            Some(reply) => r matches Some(found) && found@ == reply,
            None => r is None,
        },
{
    let count = match &status.server_type {
        ServerType::Master(master) => master.count_synced(target),
        ServerType::Replica(_) => 0,
    };
    let reached = num_replicas <= 0 || (count as u64 >= num_replicas as u64);
    if reached || elapsed >= timeout {
        Some(count_reply(count))
    } else {
        None
    }
}

} // verus!
