//! The command model: what request a frame asks for, and the frame that asks
//! for a given request.
use crate::ascii::{ascii_bytes, copy_bytes, is_word, literal, spells};
use crate::decimal::{
    format_i64, format_u64, int_digits, nat_digits, parse_i32, parse_i64, parse_u16, parse_u64,
    spec_parse_i32, spec_parse_i64, spec_parse_u16, spec_parse_u64,
};
use crate::tokenizer::{frames_of, lemma_frames_of, Frame, Resp};
use vstd::prelude::*;

verus! {

#[derive(Debug, PartialEq, Eq)]
pub enum RedisCommands {
    Echo(Vec<u8>),
    Ping,
    /// `SET`: store a value under a key.
    SetKey(SetOptions),
    Get(Vec<u8>),
    Info(Option<InfoSection>),
    ReplConf(ReplConfMode),
    /// Replication id (or `?`) and offset (or `-1`).
    PSync(Vec<u8>, i64),
    /// Number of replicas to wait for and the time limit in milliseconds.
    Wait(i32, u64),
}

#[derive(Debug, PartialEq, Eq)]
pub struct SetOptions {
    pub key: Vec<u8>,
    pub value: Vec<u8>,
    /// Time to live in milliseconds; present iff the request carried `PX`.
    pub expire: Option<u64>,
}

#[derive(Debug, Clone, Copy, PartialEq, Eq)]
pub enum InfoSection {
    Replication,
}

#[derive(Debug, PartialEq, Eq)]
pub enum ReplConfMode {
    ListeningPort(u16),
    Capability(Vec<u8>),
    GetAck(Vec<u8>),
    Ack(i64),
}

/// Why a frame is not a request.
#[derive(Debug, Clone, Copy, PartialEq, Eq)]
pub enum CommandError {
    /// Not an array that starts with a bulk string.
    NotACommand,
    /// The name is none of the known commands.
    UnknownCommand,
    /// A known command whose arguments are missing, of the wrong kind, or not
    /// the numbers they should be.
    BadArguments,
}

/// The mathematical value of `SetOptions`.
pub struct SetSpec {
    pub key: Seq<u8>,
    pub value: Seq<u8>,
    pub expire: Option<u64>,
}

/// The mathematical value of a `ReplConfMode`.
pub enum ReplConf {
    ListeningPort(u16),
    Capability(Seq<u8>),
    GetAck(Seq<u8>),
    Ack(i64),
}

/// The mathematical value of a `RedisCommands`.
pub enum Command {
    Echo(Seq<u8>),
    Ping,
    SetKey(SetSpec),
    Get(Seq<u8>),
    Info(Option<InfoSection>),
    ReplConf(ReplConf),
    PSync(Seq<u8>, i64),
    Wait(i32, u64),
}

impl View for SetOptions {
    type V = SetSpec;

    open spec fn view(&self) -> SetSpec {
        SetSpec { key: self.key@, value: self.value@, expire: self.expire }
    }
}

impl View for ReplConfMode {
    type V = ReplConf;

    open spec fn view(&self) -> ReplConf {
        match self {
            ReplConfMode::ListeningPort(port) => ReplConf::ListeningPort(*port),
            ReplConfMode::Capability(capa) => ReplConf::Capability(capa@),
            ReplConfMode::GetAck(ack) => ReplConf::GetAck(ack@),
            ReplConfMode::Ack(offset) => ReplConf::Ack(*offset),
        }
    }
}

impl View for RedisCommands {
    type V = Command;

    open spec fn view(&self) -> Command {
        match self {
            RedisCommands::Echo(text) => Command::Echo(text@),
            RedisCommands::Ping => Command::Ping,
            RedisCommands::SetKey(opts) => Command::SetKey(opts@),
            RedisCommands::Get(key) => Command::Get(key@),
            RedisCommands::Info(section) => Command::Info(*section),
            RedisCommands::ReplConf(mode) => Command::ReplConf(mode@),
            RedisCommands::PSync(repl_id, offset) => Command::PSync(repl_id@, *offset),
            RedisCommands::Wait(replicas, timeout) => Command::Wait(*replicas, *timeout),
        }
    }
}

impl Clone for SetOptions {
    fn clone(&self) -> (r: Self)
        ensures
            r@ == self@,
    {
        SetOptions {
            key: copy_bytes(self.key.as_slice()),
            value: copy_bytes(self.value.as_slice()),
            expire: self.expire,
        }
    }
}

impl Clone for ReplConfMode {
    fn clone(&self) -> (r: Self)
        ensures
            r@ == self@,
    {
        match self {
            ReplConfMode::ListeningPort(port) => ReplConfMode::ListeningPort(*port),
            ReplConfMode::Capability(capa) => ReplConfMode::Capability(copy_bytes(capa.as_slice())),
            ReplConfMode::GetAck(ack) => ReplConfMode::GetAck(copy_bytes(ack.as_slice())),
            ReplConfMode::Ack(offset) => ReplConfMode::Ack(*offset),
        }
    }
}

impl Clone for RedisCommands {
    fn clone(&self) -> (r: Self)
        ensures
            r@ == self@,
    {
        match self {
            RedisCommands::Echo(text) => RedisCommands::Echo(copy_bytes(text.as_slice())),
            RedisCommands::Ping => RedisCommands::Ping,
            RedisCommands::SetKey(opts) => RedisCommands::SetKey(opts.clone()),
            RedisCommands::Get(key) => RedisCommands::Get(copy_bytes(key.as_slice())),
            RedisCommands::Info(section) => RedisCommands::Info(*section),
            RedisCommands::ReplConf(mode) => RedisCommands::ReplConf(mode.clone()),
            RedisCommands::PSync(repl_id, offset) => RedisCommands::PSync(
                copy_bytes(repl_id.as_slice()),
                *offset,
            ),
            RedisCommands::Wait(replicas, timeout) => RedisCommands::Wait(*replicas, *timeout),
        }
    }
}

/// The payload of the bulk string at place `i`, if there is one.
pub open spec fn spec_bulk_at(items: Seq<Frame>, i: int) -> Option<Seq<u8>> {
    if 0 <= i < items.len() {
        match items[i] {
            Frame::BulkString(bytes) => Some(bytes),
            _ => None,
        }
    } else {
        None
    }
}

/// The section that `INFO` names: only `replication`, in any case.
pub open spec fn spec_parse_info_section(name: Seq<u8>) -> Result<InfoSection, CommandError> {
    if is_word(name, "replication"@) {
        Ok(InfoSection::Replication)
    } else {
        Err(CommandError::BadArguments)
    }
}

/// The sub-command of `REPLCONF` that `mode` selects, with its argument.
pub open spec fn spec_parse_replconf(mode: Seq<u8>, arg: Seq<u8>) -> Result<
    ReplConf,
    CommandError,
> {
    if is_word(mode, "listening-port"@) {
        match spec_parse_u16(arg) {
            Some(port) => Ok(ReplConf::ListeningPort(port)),
            None => Err(CommandError::BadArguments),
        }
    } else if is_word(mode, "capa"@) {
        Ok(ReplConf::Capability(arg))
    } else if is_word(mode, "getack"@) {
        Ok(ReplConf::GetAck(arg))
    } else if is_word(mode, "ack"@) {
        match spec_parse_i64(arg) {
            Some(offset) => Ok(ReplConf::Ack(offset)),
            None => Err(CommandError::BadArguments),
        }
    } else {
        Err(CommandError::BadArguments)
    }
}

/// The time to live of a `SET`: the number after `PX` where places 3 and 4
/// hold that option pair, none where they hold anything else.
pub open spec fn spec_parse_expire(items: Seq<Frame>) -> Result<Option<u64>, CommandError> {
    match (spec_bulk_at(items, 3), spec_bulk_at(items, 4)) {
        (Some(option), Some(amount)) => {
            if is_word(option, "px"@) {
                match spec_parse_u64(amount) {
                    Some(ms) => Ok(Some(ms)),
                    None => Err(CommandError::BadArguments),
                }
            } else {
                Ok(None)
            }
        },
        _ => Ok(None),
    }
}

pub open spec fn spec_parse_set(items: Seq<Frame>) -> Result<Command, CommandError> {
    match (spec_bulk_at(items, 1), spec_bulk_at(items, 2)) {
        (Some(key), Some(value)) => match spec_parse_expire(items) {
            Ok(expire) => Ok(Command::SetKey(SetSpec { key, value, expire })),
            Err(e) => Err(e),
        },
        _ => Err(CommandError::BadArguments),
    }
}

pub open spec fn spec_parse_info(items: Seq<Frame>) -> Result<Command, CommandError> {
    if items.len() <= 1 {
        Ok(Command::Info(None))
    } else {
        match spec_bulk_at(items, 1) {
            Some(name) => match spec_parse_info_section(name) {
                Ok(section) => Ok(Command::Info(Some(section))),
                Err(e) => Err(e),
            },
            None => Err(CommandError::BadArguments),
        }
    }
}

pub open spec fn spec_parse_psync(items: Seq<Frame>) -> Result<Command, CommandError> {
    match (spec_bulk_at(items, 1), spec_bulk_at(items, 2)) {
        (Some(repl_id), Some(offset)) => match spec_parse_i64(offset) {
            Some(n) => Ok(Command::PSync(repl_id, n)),
            None => Err(CommandError::BadArguments),
        },
        _ => Err(CommandError::BadArguments),
    }
}

pub open spec fn spec_parse_wait(items: Seq<Frame>) -> Result<Command, CommandError> {
    match (spec_bulk_at(items, 1), spec_bulk_at(items, 2)) {
        (Some(replicas), Some(timeout)) => match (
            spec_parse_i32(replicas),
            spec_parse_u64(timeout),
        ) {
            (Some(n), Some(ms)) => Ok(Command::Wait(n, ms)),
            _ => Err(CommandError::BadArguments),
        },
        _ => Err(CommandError::BadArguments),
    }
}

/// The request that the array `items` makes under the command name `name`.
pub open spec fn spec_parse_named(name: Seq<u8>, items: Seq<Frame>) -> Result<
    Command,
    CommandError,
> {
    if is_word(name, "ping"@) {
        Ok(Command::Ping)
    } else if is_word(name, "echo"@) {
        match spec_bulk_at(items, 1) {
            Some(text) => Ok(Command::Echo(text)),
            None => Err(CommandError::BadArguments),
        }
    } else if is_word(name, "set"@) {
        spec_parse_set(items)
    } else if is_word(name, "get"@) {
        match spec_bulk_at(items, 1) {
            Some(key) => Ok(Command::Get(key)),
            None => Err(CommandError::BadArguments),
        }
    } else if is_word(name, "info"@) {
        spec_parse_info(items)
    } else if is_word(name, "replconf"@) {
        match (spec_bulk_at(items, 1), spec_bulk_at(items, 2)) {
            (Some(mode), Some(arg)) => match spec_parse_replconf(mode, arg) {
                Ok(conf) => Ok(Command::ReplConf(conf)),
                Err(e) => Err(e),
            },
            _ => Err(CommandError::BadArguments),
        }
    } else if is_word(name, "psync"@) {
        spec_parse_psync(items)
    } else if is_word(name, "wait"@) {
        spec_parse_wait(items)
    } else {
        Err(CommandError::UnknownCommand)
    }
}

/// The request that a frame makes: the frame is an array, its first element a
/// bulk string that names the command, its arguments the elements after it.
pub open spec fn spec_parse_command(f: Frame) -> Result<Command, CommandError> {
    match f {
        Frame::Array(items) => match spec_bulk_at(items, 0) {
            Some(name) => spec_parse_named(name, items),
            None => Err(CommandError::NotACommand),
        },
        _ => Err(CommandError::NotACommand),
    }
}

/// The bulk string that holds the ASCII word `word`.
pub open spec fn word_frame(word: Seq<char>) -> Frame {
    Frame::BulkString(ascii_bytes(word))
}

/// The two arguments by which a `REPLCONF` sub-command is asked for.
pub open spec fn spec_replconf_frames(conf: ReplConf) -> Seq<Frame> {
    match conf {
        ReplConf::ListeningPort(port) => seq![
            word_frame("LISTENING-PORT"@),
            Frame::BulkString(nat_digits(port as nat)),
        ],
        ReplConf::Capability(capa) => seq![word_frame("CAPA"@), Frame::BulkString(capa)],
        ReplConf::GetAck(ack) => seq![word_frame("GETACK"@), Frame::BulkString(ack)],
        ReplConf::Ack(offset) => seq![
            word_frame("ACK"@),
            Frame::BulkString(int_digits(offset as int)),
        ],
    }
}

/// The frame by which a section of `INFO` is asked for.
pub open spec fn spec_info_frame(section: InfoSection) -> Frame {
    match section {
        InfoSection::Replication => word_frame("REPLICATION"@),
    }
}

/// The elements of the array by which a request is made.
pub open spec fn spec_render_items(c: Command) -> Seq<Frame> {
    match c {
        Command::Echo(text) => seq![word_frame("ECHO"@), Frame::BulkString(text)],
        Command::Ping => seq![word_frame("PING"@)],
        Command::SetKey(opts) => {
            let base = seq![
                word_frame("SET"@),
                Frame::BulkString(opts.key),
                Frame::BulkString(opts.value),
            ];
            match opts.expire {
                Some(ms) => base + seq![
                    word_frame("PX"@),
                    Frame::BulkString(nat_digits(ms as nat)),
                ],
                None => base,
            }
        },
        Command::Get(key) => seq![word_frame("GET"@), Frame::BulkString(key)],
        Command::Info(section) => match section {
            Some(s) => seq![word_frame("INFO"@), spec_info_frame(s)],
            None => seq![word_frame("INFO"@)],
        },
        Command::ReplConf(conf) => seq![word_frame("REPLCONF"@)] + spec_replconf_frames(conf),
        Command::PSync(repl_id, offset) => seq![
            word_frame("PSYNC"@),
            Frame::BulkString(repl_id),
            Frame::BulkString(int_digits(offset as int)),
        ],
        Command::Wait(replicas, timeout) => seq![
            word_frame("WAIT"@),
            Frame::BulkString(int_digits(replicas as int)),
            Frame::BulkString(nat_digits(timeout as nat)),
        ],
    }
}

/// The frame by which a request is made: an array of bulk strings.
pub open spec fn spec_render(c: Command) -> Frame {
    Frame::Array(spec_render_items(c))
}

/// The bulk string at place `index`, if there is one.
fn bulk_at(items: &Vec<Resp>, index: usize) -> (r: Option<&Vec<u8>>)
    ensures
        match r {
            Some(bytes) => spec_bulk_at(frames_of(items@), index as int) == Some(bytes@),
            None => spec_bulk_at(frames_of(items@), index as int) is None,
        },
{
    proof {
        lemma_frames_of(items@);
    }
    if index < items.len() {
        match &items[index] {
            Resp::BulkString(bytes) => Some(bytes),
            _ => None,
        }
    } else {
        None
    }
}

/// The bulk string that holds the ASCII word `word`.
fn word(text: &str) -> (r: Resp)
    requires
        text.is_ascii(),
    ensures
        r@ == word_frame(text@),
{
    Resp::BulkString(literal(text))
}

impl InfoSection {
    /// The section that `value` names.
    pub fn try_from(value: &[u8]) -> (r: Result<InfoSection, CommandError>)
        ensures
            r == spec_parse_info_section(value@),
    {
        proof {
            reveal_strlit("replication");
        }
        if spells(value, "replication") {
            Ok(InfoSection::Replication)
        } else {
            Err(CommandError::BadArguments)
        }
    }

    /// The frame by which the section is asked for.
    pub fn into_frame(self) -> (r: Resp)
        ensures
            r@ == spec_info_frame(self),
    {
        proof {
            reveal_strlit("REPLICATION");
        }
        match self {
            InfoSection::Replication => word("REPLICATION"),
        }
    }
}

impl ReplConfMode {
    /// The sub-command that the pair of mode and argument asks for.
    pub fn try_from(value: (&[u8], &[u8])) -> (r: Result<ReplConfMode, CommandError>)
        ensures
            match spec_parse_replconf(value.0@, value.1@) {
                Ok(conf) => r matches Ok(mode) && mode@ == conf,
                Err(e) => r matches Err(x) && x == e,
            },
    {
        proof {
            reveal_strlit("listening-port");
            reveal_strlit("capa");
            reveal_strlit("getack");
            reveal_strlit("ack");
        }
        if spells(value.0, "listening-port") {
            match parse_u16(value.1) {
                Some(port) => Ok(ReplConfMode::ListeningPort(port)),
                None => Err(CommandError::BadArguments),
            }
        } else if spells(value.0, "capa") {
            Ok(ReplConfMode::Capability(copy_bytes(value.1)))
        } else if spells(value.0, "getack") {
            Ok(ReplConfMode::GetAck(copy_bytes(value.1)))
        } else if spells(value.0, "ack") {
            match parse_i64(value.1) {
                Some(offset) => Ok(ReplConfMode::Ack(offset)),
                None => Err(CommandError::BadArguments),
            }
        } else {
            Err(CommandError::BadArguments)
        }
    }

    /// The two arguments by which the sub-command is asked for.
    pub fn into_frames(self) -> (r: Vec<Resp>)
        ensures
            frames_of(r@) == spec_replconf_frames(self@),
    {
        proof {
            reveal_strlit("LISTENING-PORT");
            reveal_strlit("CAPA");
            reveal_strlit("GETACK");
            reveal_strlit("ACK");
        }
        let (name, arg) = match self {
            ReplConfMode::ListeningPort(port) => (
                word("LISTENING-PORT"),
                Resp::BulkString(format_u64(port as u64)),
            ),
            ReplConfMode::Capability(capa) => (word("CAPA"), Resp::BulkString(capa)),
            ReplConfMode::GetAck(ack) => (word("GETACK"), Resp::BulkString(ack)),
            ReplConfMode::Ack(offset) => (word("ACK"), Resp::BulkString(format_i64(offset))),
        };
        let ghost first = name@;
        let ghost second = arg@;
        let mut frames: Vec<Resp> = Vec::new();
        frames.push(name);
        frames.push(arg);
        proof {
            lemma_frames_of(frames@);
            assert(frames_of(frames@) =~= seq![first, second]);
        }
        frames
    }
}

/// The time to live that a `SET` request carries.
fn parse_expire(items: &Vec<Resp>) -> (r: Result<Option<u64>, CommandError>)
    ensures
        r == spec_parse_expire(frames_of(items@)),
{
    proof {
        reveal_strlit("px");
    }
    match (bulk_at(items, 3), bulk_at(items, 4)) {
        (Some(option), Some(amount)) => {
            if spells(option.as_slice(), "px") {
                match parse_u64(amount.as_slice()) {
                    Some(ms) => Ok(Some(ms)),
                    None => Err(CommandError::BadArguments),
                }
            } else {
                Ok(None)
            }
        },
        _ => Ok(None),
    }
}

fn parse_set(items: &Vec<Resp>) -> (r: Result<RedisCommands, CommandError>)
    ensures
        match spec_parse_set(frames_of(items@)) {
            Ok(c) => r matches Ok(command) && command@ == c,
            Err(e) => r matches Err(x) && x == e,
        },
{
    match (bulk_at(items, 1), bulk_at(items, 2)) {
        (Some(key), Some(value)) => match parse_expire(items) {
            Ok(expire) => Ok(
                RedisCommands::SetKey(
                    SetOptions {
                        key: copy_bytes(key.as_slice()),
                        value: copy_bytes(value.as_slice()),
                        expire,
                    },
                ),
            ),
            Err(e) => Err(e),
        },
        _ => Err(CommandError::BadArguments),
    }
}

fn parse_info(items: &Vec<Resp>) -> (r: Result<RedisCommands, CommandError>)
    ensures
        match spec_parse_info(frames_of(items@)) {
            Ok(c) => r matches Ok(command) && command@ == c,
            Err(e) => r matches Err(x) && x == e,
        },
{
    proof {
        lemma_frames_of(items@);
    }
    if items.len() <= 1 {
        Ok(RedisCommands::Info(None))
    } else {
        match bulk_at(items, 1) {
            Some(name) => match InfoSection::try_from(name.as_slice()) {
                Ok(section) => Ok(RedisCommands::Info(Some(section))),
                Err(e) => Err(e),
            },
            None => Err(CommandError::BadArguments),
        }
    }
}

fn parse_replconf(items: &Vec<Resp>) -> (r: Result<RedisCommands, CommandError>)
    ensures
        match (spec_bulk_at(frames_of(items@), 1), spec_bulk_at(frames_of(items@), 2)) {
            (Some(mode), Some(arg)) => match spec_parse_replconf(mode, arg) {
                Ok(conf) => r matches Ok(command) && command@ == Command::ReplConf(conf),
                Err(e) => r matches Err(x) && x == e,
            },
            _ => r matches Err(x) && x == CommandError::BadArguments,
        },
{
    match (bulk_at(items, 1), bulk_at(items, 2)) {
        (Some(mode), Some(arg)) => match ReplConfMode::try_from((mode.as_slice(), arg.as_slice())) {
            Ok(conf) => Ok(RedisCommands::ReplConf(conf)),
            Err(e) => Err(e),
        },
        _ => Err(CommandError::BadArguments),
    }
}

fn parse_psync(items: &Vec<Resp>) -> (r: Result<RedisCommands, CommandError>)
    ensures
        match spec_parse_psync(frames_of(items@)) {
            Ok(c) => r matches Ok(command) && command@ == c,
            Err(e) => r matches Err(x) && x == e,
        },
{
    match (bulk_at(items, 1), bulk_at(items, 2)) {
        (Some(repl_id), Some(offset)) => match parse_i64(offset.as_slice()) {
            Some(n) => Ok(RedisCommands::PSync(copy_bytes(repl_id.as_slice()), n)),
            None => Err(CommandError::BadArguments),
        },
        _ => Err(CommandError::BadArguments),
    }
}

fn parse_wait(items: &Vec<Resp>) -> (r: Result<RedisCommands, CommandError>)
    ensures
        match spec_parse_wait(frames_of(items@)) {
            Ok(c) => r matches Ok(command) && command@ == c,
            Err(e) => r matches Err(x) && x == e,
        },
{
    match (bulk_at(items, 1), bulk_at(items, 2)) {
        (Some(replicas), Some(timeout)) => match (
            parse_i32(replicas.as_slice()),
            parse_u64(timeout.as_slice()),
        ) {
            (Some(n), Some(ms)) => Ok(RedisCommands::Wait(n, ms)),
            _ => Err(CommandError::BadArguments),
        },
        _ => Err(CommandError::BadArguments),
    }
}

impl RedisCommands {
    /// The request that `value` makes.
    pub fn try_from(value: Resp) -> (r: Result<RedisCommands, CommandError>)
        ensures
            match spec_parse_command(value@) {
                Ok(c) => r matches Ok(command) && command@ == c,
                Err(e) => r matches Err(x) && x == e,
            },
    {
        let array = match value {
            Resp::Array(array) => array,
            _ => {
                return Err(CommandError::NotACommand);
            },
        };
        let command = match bulk_at(&array, 0) {
            Some(command) => command.as_slice(),
            None => {
                return Err(CommandError::NotACommand);
            },
        };
        proof {
            reveal_strlit("ping");
            reveal_strlit("echo");
            reveal_strlit("set");
            reveal_strlit("get");
            reveal_strlit("info");
            reveal_strlit("replconf");
            reveal_strlit("psync");
            reveal_strlit("wait");
        }
        if spells(command, "ping") {
            Ok(RedisCommands::Ping)
        } else if spells(command, "echo") {
            match bulk_at(&array, 1) {
                Some(text) => Ok(RedisCommands::Echo(copy_bytes(text.as_slice()))),
                None => Err(CommandError::BadArguments),
            }
        } else if spells(command, "set") {
            parse_set(&array)
        } else if spells(command, "get") {
            match bulk_at(&array, 1) {
                Some(key) => Ok(RedisCommands::Get(copy_bytes(key.as_slice()))),
                None => Err(CommandError::BadArguments),
            }
        } else if spells(command, "info") {
            parse_info(&array)
        } else if spells(command, "replconf") {
            parse_replconf(&array)
        } else if spells(command, "psync") {
            parse_psync(&array)
        } else if spells(command, "wait") {
            parse_wait(&array)
        } else {
            Err(CommandError::UnknownCommand)
        }
    }
}

impl Resp {
    /// The frame by which `val` is asked for.
    pub fn from(val: RedisCommands) -> (r: Resp)
        ensures
            r@ == spec_render(val@),
    {
        proof {
            reveal_strlit("ECHO");
            reveal_strlit("PING");
            reveal_strlit("SET");
            reveal_strlit("PX");
            reveal_strlit("GET");
            reveal_strlit("INFO");
            reveal_strlit("REPLCONF");
            reveal_strlit("PSYNC");
            reveal_strlit("WAIT");
        }
        let ghost wanted = spec_render_items(val@);
        let mut frames: Vec<Resp> = Vec::new();
        match val {
            RedisCommands::Echo(text) => {
                frames.push(word("ECHO"));
                frames.push(Resp::BulkString(text));
            },
            RedisCommands::Ping => {
                frames.push(word("PING"));
            },
            RedisCommands::SetKey(opts) => {
                frames.push(word("SET"));
                frames.push(Resp::BulkString(opts.key));
                frames.push(Resp::BulkString(opts.value));
                if let Some(expire) = opts.expire {
                    frames.push(word("PX"));
                    frames.push(Resp::BulkString(format_u64(expire)));
                }
            },
            RedisCommands::Get(key) => {
                frames.push(word("GET"));
                frames.push(Resp::BulkString(key));
            },
            RedisCommands::Info(section) => {
                frames.push(word("INFO"));
                if let Some(section) = section {
                    frames.push(section.into_frame());
                }
            },
            RedisCommands::ReplConf(mode) => {
                frames.push(word("REPLCONF"));
                let mut mode_frames = mode.into_frames();
                proof {
                    lemma_frames_of(mode_frames@);
                }
                frames.append(&mut mode_frames);
            },
            RedisCommands::PSync(repl_id, repl_offset) => {
                frames.push(word("PSYNC"));
                frames.push(Resp::BulkString(repl_id));
                frames.push(Resp::BulkString(format_i64(repl_offset)));
            },
            RedisCommands::Wait(num_replicas, timeout) => {
                frames.push(word("WAIT"));
                frames.push(Resp::BulkString(format_i64(num_replicas as i64)));
                frames.push(Resp::BulkString(format_u64(timeout)));
            },
        }
        proof {
            lemma_frames_of(frames@);
            assert(frames_of(frames@) =~= wanted);
        }
        Resp::Array(frames)
    }
}

} // verus!
