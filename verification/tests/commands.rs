use redis_lite::commands::{CommandError, InfoSection, RedisCommands, ReplConfMode, SetOptions};
use redis_lite::tokenizer::Resp;

fn bulk(text: &str) -> Resp {
    Resp::BulkString(text.as_bytes().to_vec())
}

fn request(words: &[&str]) -> Resp {
    Resp::Array(words.iter().map(|w| bulk(w)).collect())
}

fn bytes(text: &str) -> Vec<u8> {
    text.as_bytes().to_vec()
}

#[test]
fn parse_ping() {
    assert_eq!(RedisCommands::try_from(request(&["PING"])), Ok(RedisCommands::Ping));
    assert_eq!(RedisCommands::try_from(request(&["ping"])), Ok(RedisCommands::Ping));
    assert_eq!(RedisCommands::try_from(request(&["PiNg", "extra"])), Ok(RedisCommands::Ping));
}

#[test]
fn parse_echo() {
    assert_eq!(
        RedisCommands::try_from(request(&["ECHO", "hi!"])),
        Ok(RedisCommands::Echo(bytes("hi!")))
    );
    assert_eq!(RedisCommands::try_from(request(&["ECHO"])), Err(CommandError::BadArguments));
    assert_eq!(
        RedisCommands::try_from(Resp::Array(vec![bulk("ECHO"), Resp::Integer(1)])),
        Err(CommandError::BadArguments)
    );
}

#[test]
fn parse_set() {
    assert_eq!(
        RedisCommands::try_from(request(&["SET", "k", "v"])),
        Ok(RedisCommands::SetKey(SetOptions { key: bytes("k"), value: bytes("v"), expire: None }))
    );
    assert_eq!(
        RedisCommands::try_from(request(&["set", "k", "v", "px", "100"])),
        Ok(RedisCommands::SetKey(SetOptions {
            key: bytes("k"),
            value: bytes("v"),
            expire: Some(100)
        }))
    );
    assert_eq!(
        RedisCommands::try_from(request(&["SET", "k", "v", "PX", "100", "more"])),
        Ok(RedisCommands::SetKey(SetOptions {
            key: bytes("k"),
            value: bytes("v"),
            expire: Some(100)
        }))
    );
}

#[test]
fn parse_set_ignores_what_is_no_option_pair() {
    let plain = Ok(RedisCommands::SetKey(SetOptions {
        key: bytes("k"),
        value: bytes("v"),
        expire: None,
    }));
    assert_eq!(RedisCommands::try_from(request(&["SET", "k", "v", "PX"])), plain);
    assert_eq!(RedisCommands::try_from(request(&["SET", "k", "v", "EX", "10"])), plain);
    assert_eq!(RedisCommands::try_from(request(&["SET", "k", "v", "NX"])), plain);
}

#[test]
fn parse_set_rejects() {
    assert_eq!(RedisCommands::try_from(request(&["SET", "k"])), Err(CommandError::BadArguments));
    assert_eq!(RedisCommands::try_from(request(&["SET"])), Err(CommandError::BadArguments));
    assert_eq!(
        RedisCommands::try_from(request(&["SET", "k", "v", "PX", "soon"])),
        Err(CommandError::BadArguments)
    );
    assert_eq!(
        RedisCommands::try_from(request(&["SET", "k", "v", "PX", "-1"])),
        Err(CommandError::BadArguments)
    );
}

#[test]
fn parse_get() {
    assert_eq!(RedisCommands::try_from(request(&["GET", "k"])), Ok(RedisCommands::Get(bytes("k"))));
    assert_eq!(RedisCommands::try_from(request(&["GET"])), Err(CommandError::BadArguments));
}

#[test]
fn parse_info() {
    assert_eq!(RedisCommands::try_from(request(&["INFO"])), Ok(RedisCommands::Info(None)));
    assert_eq!(
        RedisCommands::try_from(request(&["INFO", "replication"])),
        Ok(RedisCommands::Info(Some(InfoSection::Replication)))
    );
    assert_eq!(
        RedisCommands::try_from(request(&["info", "REPLICATION"])),
        Ok(RedisCommands::Info(Some(InfoSection::Replication)))
    );
    assert_eq!(
        RedisCommands::try_from(request(&["INFO", "memory"])),
        Err(CommandError::BadArguments)
    );
    assert_eq!(
        RedisCommands::try_from(Resp::Array(vec![bulk("INFO"), Resp::Integer(1)])),
        Err(CommandError::BadArguments)
    );
}

#[test]
fn parse_replconf() {
    assert_eq!(
        RedisCommands::try_from(request(&["REPLCONF", "listening-port", "6380"])),
        Ok(RedisCommands::ReplConf(ReplConfMode::ListeningPort(6380)))
    );
    assert_eq!(
        RedisCommands::try_from(request(&["REPLCONF", "capa", "psync2"])),
        Ok(RedisCommands::ReplConf(ReplConfMode::Capability(bytes("psync2"))))
    );
    assert_eq!(
        RedisCommands::try_from(request(&["REPLCONF", "GETACK", "*"])),
        Ok(RedisCommands::ReplConf(ReplConfMode::GetAck(bytes("*"))))
    );
    assert_eq!(
        RedisCommands::try_from(request(&["REPLCONF", "ACK", "31"])),
        Ok(RedisCommands::ReplConf(ReplConfMode::Ack(31)))
    );
}

#[test]
fn parse_replconf_rejects() {
    assert_eq!(
        RedisCommands::try_from(request(&["REPLCONF", "listening-port", "70000"])),
        Err(CommandError::BadArguments)
    );
    assert_eq!(
        RedisCommands::try_from(request(&["REPLCONF", "ack", "many"])),
        Err(CommandError::BadArguments)
    );
    assert_eq!(
        RedisCommands::try_from(request(&["REPLCONF", "mode", "x"])),
        Err(CommandError::BadArguments)
    );
    assert_eq!(
        RedisCommands::try_from(request(&["REPLCONF", "capa"])),
        Err(CommandError::BadArguments)
    );
    assert_eq!(RedisCommands::try_from(request(&["REPLCONF"])), Err(CommandError::BadArguments));
}

#[test]
fn parse_psync() {
    assert_eq!(
        RedisCommands::try_from(request(&["PSYNC", "?", "-1"])),
        Ok(RedisCommands::PSync(bytes("?"), -1))
    );
    assert_eq!(
        RedisCommands::try_from(request(&["PSYNC", "?", "x"])),
        Err(CommandError::BadArguments)
    );
    assert_eq!(RedisCommands::try_from(request(&["PSYNC", "?"])), Err(CommandError::BadArguments));
}

#[test]
fn parse_wait() {
    assert_eq!(
        RedisCommands::try_from(request(&["WAIT", "2", "1000"])),
        Ok(RedisCommands::Wait(2, 1000))
    );
    assert_eq!(
        RedisCommands::try_from(request(&["wait", "0", "100"])),
        Ok(RedisCommands::Wait(0, 100))
    );
    assert_eq!(
        RedisCommands::try_from(request(&["WAIT", "2147483648", "1"])),
        Err(CommandError::BadArguments)
    );
    assert_eq!(
        RedisCommands::try_from(request(&["WAIT", "1", "-1"])),
        Err(CommandError::BadArguments)
    );
    assert_eq!(RedisCommands::try_from(request(&["WAIT", "1"])), Err(CommandError::BadArguments));
}

#[test]
fn parse_unknown_command() {
    assert_eq!(
        RedisCommands::try_from(request(&["FLUSHALL"])),
        Err(CommandError::UnknownCommand)
    );
    assert_eq!(
        RedisCommands::try_from(request(&["CONFIG", "GET", "dir"])),
        Err(CommandError::UnknownCommand)
    );
    assert_eq!(RedisCommands::try_from(request(&["PINGS"])), Err(CommandError::UnknownCommand));
    assert_eq!(RedisCommands::try_from(request(&[""])), Err(CommandError::UnknownCommand));
}

#[test]
fn parse_what_is_no_command() {
    assert_eq!(
        RedisCommands::try_from(Resp::SimpleString(bytes("PING"))),
        Err(CommandError::NotACommand)
    );
    assert_eq!(RedisCommands::try_from(bulk("PING")), Err(CommandError::NotACommand));
    assert_eq!(RedisCommands::try_from(Resp::Array(vec![])), Err(CommandError::NotACommand));
    assert_eq!(
        RedisCommands::try_from(Resp::Array(vec![Resp::Integer(1)])),
        Err(CommandError::NotACommand)
    );
    assert_eq!(RedisCommands::try_from(Resp::NullBulkString), Err(CommandError::NotACommand));
    assert_eq!(RedisCommands::try_from(Resp::Empty), Err(CommandError::NotACommand));
}

#[test]
fn render_commands() {
    assert_eq!(Resp::from(RedisCommands::Ping), request(&["PING"]));
    assert_eq!(Resp::from(RedisCommands::Echo(bytes("hey"))), request(&["ECHO", "hey"]));
    assert_eq!(Resp::from(RedisCommands::Get(bytes("k"))), request(&["GET", "k"]));
    assert_eq!(
        Resp::from(RedisCommands::SetKey(SetOptions {
            key: bytes("k"),
            value: bytes("v"),
            expire: None
        })),
        request(&["SET", "k", "v"])
    );
    assert_eq!(
        Resp::from(RedisCommands::SetKey(SetOptions {
            key: bytes("k"),
            value: bytes("v"),
            expire: Some(100)
        })),
        request(&["SET", "k", "v", "PX", "100"])
    );
    assert_eq!(Resp::from(RedisCommands::Info(None)), request(&["INFO"]));
    assert_eq!(
        Resp::from(RedisCommands::Info(Some(InfoSection::Replication))),
        request(&["INFO", "REPLICATION"])
    );
    assert_eq!(
        Resp::from(RedisCommands::ReplConf(ReplConfMode::ListeningPort(6380))),
        request(&["REPLCONF", "LISTENING-PORT", "6380"])
    );
    assert_eq!(
        Resp::from(RedisCommands::ReplConf(ReplConfMode::Capability(bytes("psync2")))),
        request(&["REPLCONF", "CAPA", "psync2"])
    );
    assert_eq!(
        Resp::from(RedisCommands::ReplConf(ReplConfMode::GetAck(bytes("*")))),
        request(&["REPLCONF", "GETACK", "*"])
    );
    assert_eq!(
        Resp::from(RedisCommands::ReplConf(ReplConfMode::Ack(-5))),
        request(&["REPLCONF", "ACK", "-5"])
    );
    assert_eq!(
        Resp::from(RedisCommands::PSync(bytes("?"), -1)),
        request(&["PSYNC", "?", "-1"])
    );
    assert_eq!(Resp::from(RedisCommands::Wait(2, 1000)), request(&["WAIT", "2", "1000"]));
}

#[test]
fn getack_probe_has_37_bytes() {
    let probe = Resp::from(RedisCommands::ReplConf(ReplConfMode::GetAck(bytes("*"))));
    assert_eq!(
        probe.encode_to_bytes(),
        b"*3\r\n$8\r\nREPLCONF\r\n$6\r\nGETACK\r\n$1\r\n*\r\n".to_vec()
    );
    assert_eq!(probe.encode_to_bytes().len(), 37);
}

#[test]
fn every_command_is_read_back() {
    let commands = vec![
        RedisCommands::Ping,
        RedisCommands::Echo(vec![0, 13, 10, 255]),
        RedisCommands::Get(bytes("")),
        RedisCommands::SetKey(SetOptions { key: bytes("a"), value: vec![1, 2, 3], expire: None }),
        RedisCommands::SetKey(SetOptions {
            key: bytes("a"),
            value: bytes("b"),
            expire: Some(u64::MAX),
        }),
        RedisCommands::Info(None),
        RedisCommands::Info(Some(InfoSection::Replication)),
        RedisCommands::ReplConf(ReplConfMode::ListeningPort(0)),
        RedisCommands::ReplConf(ReplConfMode::ListeningPort(65535)),
        RedisCommands::ReplConf(ReplConfMode::Capability(bytes("eof"))),
        RedisCommands::ReplConf(ReplConfMode::GetAck(bytes("*"))),
        RedisCommands::ReplConf(ReplConfMode::Ack(i64::MIN)),
        RedisCommands::PSync(bytes("8371b4fb1155b71f4a04d3e1bc3e18c4a990aeeb"), i64::MAX),
        RedisCommands::Wait(i32::MIN, 0),
        RedisCommands::Wait(i32::MAX, u64::MAX),
    ];
    for command in commands {
        assert_eq!(RedisCommands::try_from(Resp::from(command.clone())), Ok(command));
    }
}

#[test]
fn info_section_names() {
    assert_eq!(InfoSection::try_from(b"replication".as_slice()), Ok(InfoSection::Replication));
    assert_eq!(InfoSection::try_from(b"Replication".as_slice()), Ok(InfoSection::Replication));
    assert_eq!(InfoSection::try_from(b"server".as_slice()), Err(CommandError::BadArguments));
    assert_eq!(InfoSection::Replication.into_frame(), bulk("REPLICATION"));
}

#[test]
fn replconf_modes() {
    assert_eq!(
        ReplConfMode::try_from((b"Listening-Port".as_slice(), b"1".as_slice())),
        Ok(ReplConfMode::ListeningPort(1))
    );
    assert_eq!(
        ReplConfMode::try_from((b"ack".as_slice(), b"-1".as_slice())),
        Ok(ReplConfMode::Ack(-1))
    );
    assert_eq!(
        ReplConfMode::try_from((b"other".as_slice(), b"1".as_slice())),
        Err(CommandError::BadArguments)
    );
    assert_eq!(ReplConfMode::Ack(12).into_frames(), vec![bulk("ACK"), bulk("12")]);
    assert_eq!(
        ReplConfMode::ListeningPort(7).into_frames(),
        vec![bulk("LISTENING-PORT"), bulk("7")]
    );
}
