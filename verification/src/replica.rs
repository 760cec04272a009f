//! The follower's side of replication: the handshake with the leader, the
//! snapshot that follows it, and the stream of requests after that.
//!
//! As everywhere in this library the socket is somewhere else: each function
//! takes what was received and says what to send and how much was used.
use crate::ascii::{ascii_bytes, bytes_eq, literal, spec_starts_with, starts_with};
use crate::commands::{
    spec_parse_command, spec_render, word_frame, Command, RedisCommands, ReplConf, ReplConfMode,
};
use crate::decimal::{
    format_u64, nat_digits, parse_i64, parse_usize, spec_parse_i64, spec_parse_usize,
};
use crate::keyspace::{Entry, Keyspace};
use crate::tokenizer::{
    frames_of, is_line_break, lemma_frames_of, line_break, read_next_line, spec_decode,
    tokenize_bytes, Frame, Resp, RespError, BULK_TAG,
};
use vstd::prelude::*;

verus! {

/// How far the handshake with the leader has come.
#[derive(Debug, Clone, Copy, PartialEq, Eq)]
pub enum HandshakeState {
    /// Nothing sent yet.
    Start,
    /// `PING` sent.
    PingSent,
    /// `REPLCONF listening-port` sent.
    Conf1Sent,
    /// `REPLCONF capa` sent.
    Conf2Sent,
    /// `PSYNC` sent.
    PsyncSent,
    /// Full resync granted from the given offset. What follows is the
    /// snapshot, which `snapshot_span` measures, and behind it the stream, which
    /// `follow_master` reads from this offset on.
    Snapshot(i64),
}

/// The leader answered with something else than the handshake expects.
#[derive(Debug, Clone, Copy, PartialEq, Eq)]
pub struct ProtocolMismatch;

/// ASCII white space: space, tab, line feed, form feed, carriage return.
pub open spec fn is_space(b: u8) -> bool {
    b == 32 || b == 9 || b == 10 || b == 12 || b == 13
}

/// The length of the longest run of `s` from `from` on that holds only white
/// space (`space`) or only other bytes (`!space`).
pub open spec fn run_len(s: Seq<u8>, from: int, space: bool) -> int
    decreases s.len() - from,
{
    if 0 <= from < s.len() && is_space(s[from]) == space {
        1 + run_len(s, from + 1, space)
    } else {
        0
    }
}

/// Word number `n` of `s` from `from` on, where words are what white space
/// separates.
pub open spec fn spec_token(s: Seq<u8>, from: int, n: nat) -> Option<Seq<u8>>
    decreases n,
{
    let start = from + run_len(s, from, true);
    let len = run_len(s, start, false);
    if len == 0 {
        None
    } else if n == 0 {
        Some(s.subrange(start, start + len))
    } else {
        spec_token(s, start + len, (n - 1) as nat)
    }
}

/// The offset that a grant of full resync names: its third word as a number,
/// zero where it has no third word; nothing where the text is no grant.
pub open spec fn spec_resync_offset(text: Seq<u8>) -> Option<i64> {
    if !spec_starts_with(text, ascii_bytes("FULLRESYNC"@)) {
        None
    } else {
        match spec_token(text, 0, 2) {
            None => Some(0i64),
            Some(word) => spec_parse_i64(word),
        }
    }
}

/// The request `ping`.
pub open spec fn ping_request() -> Frame {
    Frame::Array(seq![word_frame("ping"@)])
}

/// The request `REPLCONF listening-port <port>`.
pub open spec fn listening_port_request(port: u16) -> Frame {
    Frame::Array(
        seq![
            word_frame("REPLCONF"@),
            word_frame("listening-port"@),
            Frame::BulkString(nat_digits(port as nat)),
        ],
    )
}

/// The request `REPLCONF capa psync2`.
pub open spec fn capability_request() -> Frame {
    Frame::Array(seq![word_frame("REPLCONF"@), word_frame("capa"@), word_frame("psync2"@)])
}

/// The request `PSYNC ? -1`.
pub open spec fn psync_request() -> Frame {
    Frame::Array(seq![word_frame("PSYNC"@), word_frame("?"@), word_frame("-1"@)])
}

/// One step of the handshake: from the state and what the leader sent (nothing
/// at the start) to the next state and what to send.
pub open spec fn spec_handshake_step(state: HandshakeState, reply: Option<Frame>, port: u16)
    -> Result<(HandshakeState, Option<Frame>), ProtocolMismatch> {
    match (state, reply) {
        (HandshakeState::Start, None) => Ok((HandshakeState::PingSent, Some(ping_request()))),
        (HandshakeState::PingSent, Some(Frame::SimpleString(text))) => {
            if text == ascii_bytes("PONG"@) {
                Ok((HandshakeState::Conf1Sent, Some(listening_port_request(port))))
            } else {
                Err(ProtocolMismatch)
            }
        },
        (HandshakeState::Conf1Sent, Some(Frame::SimpleString(text))) => {
            if text == ascii_bytes("OK"@) {
                Ok((HandshakeState::Conf2Sent, Some(capability_request())))
            } else {
                Err(ProtocolMismatch)
            }
        },
        (HandshakeState::Conf2Sent, Some(Frame::SimpleString(text))) => {
            if text == ascii_bytes("OK"@) {
                Ok((HandshakeState::PsyncSent, Some(psync_request())))
            } else {
                Err(ProtocolMismatch)
            }
        },
        (HandshakeState::PsyncSent, Some(Frame::SimpleString(text))) => {
            match spec_resync_offset(text) {
                Some(offset) => Ok((HandshakeState::Snapshot(offset), None)),
                None => Err(ProtocolMismatch),
            }
        },
        _ => Err(ProtocolMismatch),
    }
}

/// How many bytes the snapshot transfer at the front of `s` spans: a line that
/// starts with `$` and names a length, then that many bytes.
pub open spec fn spec_snapshot_span(s: Seq<u8>) -> Result<int, RespError> {
    match line_break(s) {
        None => Err(RespError::Incomplete),
        Some(end) => {
            if end == 0 || s[0] != 36 {
                Err(RespError::Malformed)
            } else {
                match spec_parse_usize(s.subrange(1, end)) {
                    None => Err(RespError::Malformed),
                    Some(len) => {
                        if s.len() < end + 2 + len {
                            Err(RespError::Incomplete)
                        } else {
                            Ok(end + 2 + len)
                        }
                    },
                }
            }
        },
    }
}

/// What a follower makes of a request from its leader, having counted
/// `ack_offset` bytes of stream up to and including the request: a write is
/// stored, a probe is answered with the offset, anything else is let pass.
pub open spec fn spec_master_command(
    c: Command,
    keyspace: Map<Seq<u8>, Entry>,
    ack_offset: i64,
    now: u64,
) -> (Map<Seq<u8>, Entry>, Frame) {
    match c {
        Command::SetKey(opts) => (
            keyspace.insert(
                opts.key,
                Entry { value: opts.value, expire: opts.expire, timestamp: now },
            ),
            Frame::Empty,
        ),
        Command::ReplConf(ReplConf::GetAck(_)) => (
            keyspace,
            spec_render(Command::ReplConf(ReplConf::Ack(ack_offset))),
        ),
        _ => (keyspace, Frame::Empty),
    }
}

/// What came of one frame of the leader's stream.
#[derive(Debug, PartialEq, Eq)]
pub struct Applied {
    /// How many bytes of the buffer the frame spanned.
    pub consumed: usize,
    /// The offset after the frame.
    pub ack_offset: i64,
    /// What to send to the leader; `Empty` for nothing.
    pub reply: Resp,
}

/// The mathematical value of an `Applied`, with the keyspace after it.
pub struct AppliedSpec {
    pub consumed: int,
    pub ack_offset: i64,
    pub reply: Frame,
    pub keyspace: Map<Seq<u8>, Entry>,
}

/// Why the stream from the leader cannot be followed any further.
#[derive(Debug, Clone, Copy, PartialEq, Eq)]
pub enum StreamError {
    /// The stream does not hold a frame where one should be.
    Malformed,
    /// The offset would pass the largest number that an acknowledgement holds.
    OffsetOverflow,
}

/// One step along the leader's stream: nothing while the frame at the front
/// of `buffer` is incomplete; else the frame is counted, then carried out if
/// it is a request, and let pass if it is none.
pub open spec fn spec_follow_step(
    buffer: Seq<u8>,
    keyspace: Map<Seq<u8>, Entry>,
    ack_offset: i64,
    now: u64,
) -> Result<Option<AppliedSpec>, StreamError> {
    match spec_decode(buffer) {
        Err(RespError::Incomplete) => Ok(None),
        Err(RespError::Malformed) => Err(StreamError::Malformed),
        Ok((frame, used)) => {
            if ack_offset + used > i64::MAX {
                Err(StreamError::OffsetOverflow)
            } else {
                let offset = (ack_offset + used) as i64;
                match spec_parse_command(frame) {
                    Err(_) => Ok(
                        Some(
                            AppliedSpec {
                                consumed: used,
                                ack_offset: offset,
                                reply: Frame::Empty,
                                keyspace,
                            },
                        ),
                    ),
                    Ok(c) => {
                        let (after, reply) = spec_master_command(c, keyspace, offset, now);
                        Ok(
                            Some(
                                AppliedSpec {
                                    consumed: used,
                                    ack_offset: offset,
                                    reply,
                                    keyspace: after,
                                },
                            ),
                        )
                    },
                }
            }
        },
    }
}

/// The bulk string that holds the ASCII word `text`.
fn word(text: &str) -> (r: Resp)
    requires
        text.is_ascii(),
    ensures
        r@ == word_frame(text@),
{
    Resp::BulkString(literal(text))
}

/// The array of the three frames given.
fn request_of(first: Resp, second: Resp, third: Resp) -> (r: Resp)
    ensures
        r@ == Frame::Array(seq![first@, second@, third@]),
{
    let ghost wanted = seq![first@, second@, third@];
    let mut frames: Vec<Resp> = Vec::new();
    frames.push(first);
    frames.push(second);
    frames.push(third);
    proof {
        lemma_frames_of(frames@);
        assert(frames_of(frames@) =~= wanted);
    }
    Resp::Array(frames)
}

/// Whether `reply` is the simple string `expected`.
fn is_simple(reply: &Resp, expected: &str) -> (r: bool)
    requires
        expected.is_ascii(),
    ensures
        r == (reply@ matches Frame::SimpleString(text) && text == ascii_bytes(expected@)),
{
    match reply {
        Resp::SimpleString(text) => {
            let wanted = literal(expected);
            bytes_eq(text.as_slice(), wanted.as_slice())
        },
        _ => false,
    }
}

fn is_space_byte(b: u8) -> (r: bool)
    ensures
        r == is_space(b),
{
    b == 32 || b == 9 || b == 10 || b == 12 || b == 13
}

/// Where the run of white space (`space`) or of other bytes (`!space`) that
/// starts at `from` ends.
fn run_end(s: &[u8], from: usize, space: bool) -> (end: usize)
    requires
        from <= s@.len(),
    ensures
        end == from + run_len(s@, from as int, space),
        from <= end <= s@.len(),
    decreases s@.len() - from,
{
    if from < s.len() && is_space_byte(s[from]) == space {
        run_end(s, from + 1, space)
    } else {
        from
    }
}

/// Word number `n` of `s` from `from` on.
fn token(s: &[u8], from: usize, n: usize) -> (r: Option<&[u8]>)
    requires
        from <= s@.len(),
    ensures
        match spec_token(s@, from as int, n as nat) {
            Some(word) => r matches Some(found) && found@ == word,
            None => r is None,
        },
    decreases n,
{
    let start = run_end(s, from, true);
    let end = run_end(s, start, false);
    if end == start {
        None
    } else if n == 0 {
        Some(&s[start..end])
    } else {
        token(s, end, n - 1)
    }
}

/// The offset that the grant of full resync `text` names.
pub fn resync_offset(text: &[u8]) -> (r: Option<i64>)
    ensures
        r == spec_resync_offset(text@),
{
    proof {
        reveal_strlit("FULLRESYNC");
    }
    let grant = literal("FULLRESYNC");
    if !starts_with(text, grant.as_slice()) {
        return None;
    }
    match token(text, 0, 2) {
        None => Some(0),
        Some(word) => parse_i64(word),
    }
}

/// One step of the handshake with the leader: given the state and the frame
/// that the leader sent (none at the start), the next state and the request to
/// send, if any.
pub fn connect_master(state: HandshakeState, reply: Option<&Resp>, port: u16) -> (r: Result<
    (HandshakeState, Option<Resp>),
    ProtocolMismatch,
>)
    ensures
        match spec_handshake_step(
            state,
            match reply {
                Some(frame) => Some(frame@),
                None => None,
            },
            port,
        ) {
            Ok((next, request)) => r matches Ok((found, sent)) && found == next && match request {
                Some(frame) => sent matches Some(out) && out@ == frame,
                None => sent is None,
            },
            Err(_) => r is Err,
        },
{
    proof {
        reveal_strlit("ping");
        reveal_strlit("PONG");
        reveal_strlit("OK");
        reveal_strlit("REPLCONF");
        reveal_strlit("listening-port");
        reveal_strlit("capa");
        reveal_strlit("psync2");
        reveal_strlit("PSYNC");
        reveal_strlit("?");
        reveal_strlit("-1");
    }
    match (state, reply) {
        (HandshakeState::Start, None) => {
            let ghost wanted = seq![word_frame("ping"@)];
            let mut frames: Vec<Resp> = Vec::new();
            frames.push(word("ping"));
            proof {
                lemma_frames_of(frames@);
                assert(frames_of(frames@) =~= wanted);
            }
            Ok((HandshakeState::PingSent, Some(Resp::Array(frames))))
        },
        (HandshakeState::PingSent, Some(frame)) => {
            if is_simple(frame, "PONG") {
                let replconf = request_of(
                    word("REPLCONF"),
                    word("listening-port"),
                    Resp::BulkString(format_u64(port as u64)),
                );
                Ok((HandshakeState::Conf1Sent, Some(replconf)))
            } else {
                Err(ProtocolMismatch)
            }
        },
        (HandshakeState::Conf1Sent, Some(frame)) => {
            if is_simple(frame, "OK") {
                let replconf = request_of(word("REPLCONF"), word("capa"), word("psync2"));
                Ok((HandshakeState::Conf2Sent, Some(replconf)))
            } else {
                Err(ProtocolMismatch)
            }
        },
        (HandshakeState::Conf2Sent, Some(frame)) => {
            if is_simple(frame, "OK") {
                let psync = request_of(word("PSYNC"), word("?"), word("-1"));
                Ok((HandshakeState::PsyncSent, Some(psync)))
            } else {
                Err(ProtocolMismatch)
            }
        },
        (HandshakeState::PsyncSent, Some(frame)) => {
            match frame {
                Resp::SimpleString(resync_text) => match resync_offset(resync_text.as_slice()) {
                    Some(offset) => Ok((HandshakeState::Snapshot(offset), None)),
                    None => Err(ProtocolMismatch),
                },
                _ => Err(ProtocolMismatch),
            }
        },
        _ => Err(ProtocolMismatch),
    }
}

/// How many bytes at the front of `buffer` the snapshot transfer spans.
pub fn snapshot_span(buffer: &[u8]) -> (r: Result<usize, RespError>)
    ensures
        match spec_snapshot_span(buffer@) {
            Ok(span) => r matches Ok(found) && found == span,
            Err(e) => r matches Err(x) && x == e,
        },
{
    let (body, head) = match read_next_line(buffer) {
        Ok(parts) => parts,
        Err(_) => {
            return Err(RespError::Incomplete);
        },
    };
    let end = head.len();
    if end == 0 || head[0] != BULK_TAG {
        return Err(RespError::Malformed);
    }
    proof {
        assert(is_line_break(buffer@, end as int));
        assert(head@.subrange(1, end as int) =~= buffer@.subrange(1, end as int));
        assert(body@.len() == buffer@.len() - end - 2);
    }
    match parse_usize(&head[1..end]) {
        None => Err(RespError::Malformed),
        Some(len) => {
            if body.len() < len {
                Err(RespError::Incomplete)
            } else {
                let header = buffer.len() - body.len();
                Ok(header + len)
            }
        },
    }
}

/// Carries out a request from the leader and gives what to answer (`Empty`
/// for nothing); `ack_offset` counts the stream up to and including the
/// request.
pub fn handle_master_command(
    command: &RedisCommands,
    keyspace: &mut Keyspace,
    ack_offset: i64,
    now: u64,
) -> (reply: Resp)
    ensures
        ({
            let (after, answer) = spec_master_command(command@, old(keyspace)@, ack_offset, now);
            final(keyspace)@ == after && reply@ == answer
        }),
{
    match command {
        RedisCommands::SetKey(opts) => {
            let stored = opts.clone();
            keyspace.set(stored.key, stored.value, stored.expire, now);
            Resp::Empty
        },
        RedisCommands::ReplConf(ReplConfMode::GetAck(_)) => {
            Resp::from(RedisCommands::ReplConf(ReplConfMode::Ack(ack_offset)))
        },
        _ => Resp::Empty,
    }
}

/// One step along the leader's stream, of which `buffer` holds what has
/// arrived and not been used yet: `None` while more bytes are needed.
pub fn follow_master(buffer: &[u8], keyspace: &mut Keyspace, ack_offset: i64, now: u64) -> (r:
    Result<Option<Applied>, StreamError>)
    ensures
        match spec_follow_step(buffer@, old(keyspace)@, ack_offset, now) {
            Ok(Some(step)) => {
                &&& r matches Ok(Some(applied))
                &&& applied.consumed == step.consumed
                &&& applied.ack_offset == step.ack_offset
                &&& applied.reply@ == step.reply
                &&& final(keyspace)@ == step.keyspace
                &&& 0 < applied.consumed <= buffer@.len()
                &&& applied.ack_offset > ack_offset
            },
            Ok(None) => r matches Ok(None) && final(keyspace)@ == old(keyspace)@,
            Err(e) => r matches Err(x) && x == e && final(keyspace)@ == old(keyspace)@,
        },
{
    let (remainder, tokens) = match tokenize_bytes(buffer) {
        Ok(parts) => parts,
        Err(RespError::Incomplete) => {
            return Ok(None);
        },
        Err(RespError::Malformed) => {
            return Err(StreamError::Malformed);
        },
    };
    let consumed = buffer.len() - remainder.len();
    let total: i128 = ack_offset as i128 + consumed as i128;
    if total > i64::MAX as i128 {
        return Err(StreamError::OffsetOverflow);
    }
    let offset = total as i64;
    match RedisCommands::try_from(tokens) {
        Err(_) => Ok(Some(Applied { consumed, ack_offset: offset, reply: Resp::Empty })),
        Ok(command) => {
            let reply = handle_master_command(&command, keyspace, offset, now);
            Ok(Some(Applied { consumed, ack_offset: offset, reply }))
        },
    }
}

} // verus!
