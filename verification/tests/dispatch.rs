use redis_lite::commands::{InfoSection, RedisCommands, ReplConfMode, SetOptions};
use redis_lite::dispatch::{encode_command, handle_command, wait_poll, Action, DispatchError};
use redis_lite::keyspace::Keyspace;
use redis_lite::server::{MasterStatus, ReplicaStatus, ServerStatus, ServerType};
use redis_lite::tokenizer::Resp;

fn bytes(text: &str) -> Vec<u8> {
    text.as_bytes().to_vec()
}

fn leader() -> ServerStatus {
    ServerStatus { server_type: ServerType::Master(MasterStatus::initial()) }
}

fn follower() -> ServerStatus {
    ServerStatus {
        server_type: ServerType::Replica(ReplicaStatus {
            master_address: "127.0.0.1".to_string(),
            master_port: 6379,
        }),
    }
}

fn master_of(status: &ServerStatus) -> &MasterStatus {
    match &status.server_type {
        ServerType::Master(master) => master,
        ServerType::Replica(_) => panic!("not a master"),
    }
}

fn master_mut(status: &mut ServerStatus) -> &mut MasterStatus {
    match &mut status.server_type {
        ServerType::Master(master) => master,
        ServerType::Replica(_) => panic!("not a master"),
    }
}

fn set(key: &str, value: &str, expire: Option<u64>) -> RedisCommands {
    RedisCommands::SetKey(SetOptions { key: bytes(key), value: bytes(value), expire })
}

#[test]
fn ping_gets_pong() {
    let mut keyspace = Keyspace::new();
    let mut status = leader();
    let action = handle_command(&RedisCommands::Ping, &mut keyspace, &mut status, 0).unwrap();
    assert_eq!(action, Action::Reply(Resp::SimpleString(bytes("PONG"))));
    assert_eq!(master_of(&status).repl_offset, 0);
}

#[test]
fn echo_gets_the_text() {
    let mut keyspace = Keyspace::new();
    let mut status = follower();
    let action =
        handle_command(&RedisCommands::Echo(bytes("hi!")), &mut keyspace, &mut status, 0).unwrap();
    assert_eq!(action, Action::Reply(Resp::SimpleString(bytes("hi!"))));
}

#[test]
fn set_stores_and_propagates() {
    let mut keyspace = Keyspace::new();
    let mut status = leader();
    let command = set("k", "v", None);
    let action = handle_command(&command, &mut keyspace, &mut status, 5).unwrap();
    let stream = b"*3\r\n$3\r\nSET\r\n$1\r\nk\r\n$1\r\nv\r\n".to_vec();
    assert_eq!(stream.len(), 27);
    assert_eq!(
        action,
        Action::Propagate { reply: Resp::SimpleString(bytes("OK")), stream: stream.clone() }
    );
    assert_eq!(encode_command(&command), stream);
    assert_eq!(keyspace.get(b"k", 5), Some(bytes("v")));
    assert_eq!(master_of(&status).repl_offset, 27);
    assert_eq!(master_of(&status).repl_data_offset, 27);
}

#[test]
fn offsets_add_up_over_writes() {
    let mut keyspace = Keyspace::new();
    let mut status = leader();
    let mut expected = 0u64;
    for (key, value, expire) in [("a", "1", None), ("bb", "22", Some(100)), ("a", "333", None)] {
        let command = set(key, value, expire);
        let before = master_of(&status).repl_offset;
        match handle_command(&command, &mut keyspace, &mut status, 0).unwrap() {
            Action::Propagate { stream, .. } => {
                expected += stream.len() as u64;
                assert_eq!(master_of(&status).repl_offset, before + stream.len() as u64);
            }
            other => panic!("unexpected {:?}", other),
        }
    }
    assert_eq!(master_of(&status).repl_offset, expected);
    assert_eq!(master_of(&status).repl_data_offset, expected);
    assert_eq!(keyspace.get(b"a", 0), Some(bytes("333")));
}

#[test]
fn set_with_px_expires() {
    let mut keyspace = Keyspace::new();
    let mut status = leader();
    let action = handle_command(&set("k", "v", Some(100)), &mut keyspace, &mut status, 0).unwrap();
    match action {
        Action::Propagate { reply, stream } => {
            assert_eq!(reply.encode_to_bytes(), b"+OK\r\n".to_vec());
            assert_eq!(
                stream,
                b"*5\r\n$3\r\nSET\r\n$1\r\nk\r\n$1\r\nv\r\n$2\r\nPX\r\n$3\r\n100\r\n".to_vec()
            );
        }
        other => panic!("unexpected {:?}", other),
    }
    let get = RedisCommands::Get(bytes("k"));
    match handle_command(&get, &mut keyspace, &mut status, 50).unwrap() {
        Action::Reply(reply) => assert_eq!(reply.encode_to_bytes(), b"$1\r\nv\r\n".to_vec()),
        other => panic!("unexpected {:?}", other),
    }
    match handle_command(&get, &mut keyspace, &mut status, 200).unwrap() {
        Action::Reply(reply) => assert_eq!(reply.encode_to_bytes(), b"$-1\r\n".to_vec()),
        other => panic!("unexpected {:?}", other),
    }
}

#[test]
fn get_of_missing_key_is_null() {
    let mut keyspace = Keyspace::new();
    let mut status = leader();
    let action =
        handle_command(&RedisCommands::Get(bytes("none")), &mut keyspace, &mut status, 0).unwrap();
    assert_eq!(action, Action::Reply(Resp::NullBulkString));
}

#[test]
fn set_on_follower_is_refused() {
    let mut keyspace = Keyspace::new();
    let mut status = follower();
    assert_eq!(
        handle_command(&set("k", "v", None), &mut keyspace, &mut status, 0),
        Err(DispatchError::ReadOnlyReplica)
    );
    assert_eq!(keyspace.get(b"k", 0), None);
    assert_eq!(keyspace.len(), 0);
}

#[test]
fn set_that_would_overflow_the_offset_is_refused() {
    let mut keyspace = Keyspace::new();
    let mut status = leader();
    master_mut(&mut status).repl_offset = u64::MAX - 26;
    assert_eq!(
        handle_command(&set("k", "v", None), &mut keyspace, &mut status, 0),
        Err(DispatchError::OffsetOverflow)
    );
    assert_eq!(keyspace.get(b"k", 0), None);
    assert_eq!(master_of(&status).repl_offset, u64::MAX - 26);
    master_mut(&mut status).repl_offset = u64::MAX - 27;
    assert!(handle_command(&set("k", "v", None), &mut keyspace, &mut status, 0).is_ok());
    assert_eq!(master_of(&status).repl_offset, u64::MAX);
}

#[test]
fn info_on_master() {
    let mut keyspace = Keyspace::new();
    let mut status = leader();
    let expected = Action::Reply(Resp::BulkString(
        b"role:master\r\nmaster_replid:8371b4fb1155b71f4a04d3e1bc3e18c4a990aeeb\r\nmaster_repl_offset:0"
            .to_vec(),
    ));
    assert_eq!(
        handle_command(&RedisCommands::Info(None), &mut keyspace, &mut status, 0).unwrap(),
        expected
    );
    assert_eq!(
        handle_command(
            &RedisCommands::Info(Some(InfoSection::Replication)),
            &mut keyspace,
            &mut status,
            0
        )
        .unwrap(),
        expected
    );
}

#[test]
fn info_on_follower() {
    let mut keyspace = Keyspace::new();
    let mut status = follower();
    assert_eq!(
        handle_command(&RedisCommands::Info(None), &mut keyspace, &mut status, 0).unwrap(),
        Action::Reply(Resp::BulkString(bytes("role:slave")))
    );
}

#[test]
fn replconf_gets_ok() {
    let mut keyspace = Keyspace::new();
    let mut status = leader();
    for mode in [
        ReplConfMode::ListeningPort(6380),
        ReplConfMode::Capability(bytes("psync2")),
        ReplConfMode::GetAck(bytes("*")),
        ReplConfMode::Ack(0),
    ] {
        assert_eq!(
            handle_command(&RedisCommands::ReplConf(mode), &mut keyspace, &mut status, 0).unwrap(),
            Action::Reply(Resp::SimpleString(bytes("OK")))
        );
    }
    assert_eq!(master_of(&status).repl_offset, 0);
}

#[test]
fn psync_grants_full_resync() {
    let mut keyspace = Keyspace::new();
    let mut status = leader();
    let action =
        handle_command(&RedisCommands::PSync(bytes("?"), -1), &mut keyspace, &mut status, 0)
            .unwrap();
    let snapshot = master_of(&status).snapshot.clone();
    let mut expected =
        b"+FULLRESYNC 8371b4fb1155b71f4a04d3e1bc3e18c4a990aeeb 0\r\n$88\r\n".to_vec();
    expected.extend_from_slice(&snapshot);
    assert_eq!(action, Action::FullResync { payload: expected.clone(), replica_index: 0 });
    assert_eq!(expected.len(), 56 + 5 + 88);
    assert_eq!(master_of(&status).replicas_data.len(), 1);
    assert_eq!(master_of(&status).replicas_data[0].latest_offset, 0);
    assert_eq!(master_of(&status).repl_offset, 0);
    let second =
        handle_command(&RedisCommands::PSync(bytes("?"), -1), &mut keyspace, &mut status, 0)
            .unwrap();
    assert_eq!(second, Action::FullResync { payload: expected, replica_index: 1 });
}

#[test]
fn psync_names_the_current_offset() {
    let mut keyspace = Keyspace::new();
    let mut status = leader();
    handle_command(&set("k", "v", None), &mut keyspace, &mut status, 0).unwrap();
    match handle_command(&RedisCommands::PSync(bytes("?"), -1), &mut keyspace, &mut status, 0)
        .unwrap()
    {
        Action::FullResync { payload, .. } => {
            assert!(payload
                .starts_with(b"+FULLRESYNC 8371b4fb1155b71f4a04d3e1bc3e18c4a990aeeb 27\r\n$88\r\n"))
        }
        other => panic!("unexpected {:?}", other),
    }
}

#[test]
fn psync_other_than_full_is_refused() {
    let mut keyspace = Keyspace::new();
    let mut status = leader();
    assert_eq!(
        handle_command(&RedisCommands::PSync(bytes("?"), 0), &mut keyspace, &mut status, 0),
        Err(DispatchError::UnsupportedSync)
    );
    assert_eq!(
        handle_command(&RedisCommands::PSync(bytes("abc"), -1), &mut keyspace, &mut status, 0),
        Err(DispatchError::UnsupportedSync)
    );
    assert_eq!(master_of(&status).replicas_data.len(), 0);
}

#[test]
fn psync_on_follower_is_refused() {
    let mut keyspace = Keyspace::new();
    let mut status = follower();
    assert_eq!(
        handle_command(&RedisCommands::PSync(bytes("?"), -1), &mut keyspace, &mut status, 0),
        Err(DispatchError::NotMaster)
    );
}

#[test]
fn wait_without_writes_counts_followers() {
    let mut keyspace = Keyspace::new();
    let mut status = leader();
    assert_eq!(
        handle_command(&RedisCommands::Wait(0, 100), &mut keyspace, &mut status, 0).unwrap(),
        Action::Reply(Resp::Integer(0))
    );
    master_mut(&mut status).add_replica();
    master_mut(&mut status).add_replica();
    master_mut(&mut status).add_replica();
    let action =
        handle_command(&RedisCommands::Wait(0, 100), &mut keyspace, &mut status, 0).unwrap();
    match &action {
        Action::Reply(reply) => assert_eq!(reply.encode_to_bytes(), b":3\r\n".to_vec()),
        other => panic!("unexpected {:?}", other),
    }
    assert_eq!(
        handle_command(&RedisCommands::Wait(7, 5000), &mut keyspace, &mut status, 0).unwrap(),
        Action::Reply(Resp::Integer(3))
    );
    assert_eq!(master_of(&status).repl_offset, 0);
}

#[test]
fn wait_on_follower_is_zero() {
    let mut keyspace = Keyspace::new();
    let mut status = follower();
    assert_eq!(
        handle_command(&RedisCommands::Wait(1, 100), &mut keyspace, &mut status, 0).unwrap(),
        Action::Reply(Resp::Integer(0))
    );
    assert_eq!(wait_poll(&status, 1, 1, 0, 100), None);
    assert_eq!(wait_poll(&status, 1, 1, 100, 100), Some(Resp::Integer(0)));
}

#[test]
fn wait_after_write_probes_the_followers() {
    let mut keyspace = Keyspace::new();
    let mut status = leader();
    master_mut(&mut status).add_replica();
    master_mut(&mut status).add_replica();
    handle_command(&set("k", "v", None), &mut keyspace, &mut status, 0).unwrap();
    let action =
        handle_command(&RedisCommands::Wait(2, 1000), &mut keyspace, &mut status, 0).unwrap();
    assert_eq!(
        action,
        Action::Probe {
            probe: b"*3\r\n$8\r\nREPLCONF\r\n$6\r\nGETACK\r\n$1\r\n*\r\n".to_vec(),
            target: 27,
            num_replicas: 2,
            timeout: 1000,
        }
    );
    assert_eq!(master_of(&status).repl_offset, 27 + 37);
    assert_eq!(master_of(&status).repl_data_offset, 27);

    assert_eq!(wait_poll(&status, 27, 2, 0, 1000), None);
    master_mut(&mut status).record_ack(0, 27);
    assert_eq!(wait_poll(&status, 27, 2, 20, 1000), None);
    master_mut(&mut status).record_ack(1, 64);
    let reply = wait_poll(&status, 27, 2, 40, 1000).unwrap();
    assert_eq!(reply.encode_to_bytes(), b":2\r\n".to_vec());
}

#[test]
fn second_wait_keeps_the_target() {
    let mut keyspace = Keyspace::new();
    let mut status = leader();
    master_mut(&mut status).add_replica();
    handle_command(&set("k", "v", None), &mut keyspace, &mut status, 0).unwrap();
    handle_command(&RedisCommands::Wait(1, 10), &mut keyspace, &mut status, 0).unwrap();
    master_mut(&mut status).record_ack(0, 27);
    match handle_command(&RedisCommands::Wait(1, 10), &mut keyspace, &mut status, 0).unwrap() {
        Action::Probe { target, .. } => {
            assert_eq!(target, 27);
            assert_eq!(wait_poll(&status, target, 1, 0, 10), Some(Resp::Integer(1)));
        }
        other => panic!("unexpected {:?}", other),
    }
    assert_eq!(master_of(&status).repl_offset, 27 + 37 + 37);
}

#[test]
fn wait_gives_up_at_the_deadline() {
    let mut status = leader();
    master_mut(&mut status).add_replica();
    master_mut(&mut status).add_replica();
    master_mut(&mut status).record_ack(1, 29);
    assert_eq!(wait_poll(&status, 29, 2, 999, 1000), None);
    assert_eq!(wait_poll(&status, 29, 2, 1000, 1000), Some(Resp::Integer(1)));
    assert_eq!(wait_poll(&status, 29, 2, 5000, 1000), Some(Resp::Integer(1)));
    assert_eq!(wait_poll(&status, 29, 2, 0, 0), Some(Resp::Integer(1)));
}

#[test]
fn wait_for_nobody_is_over_at_once() {
    let mut status = leader();
    master_mut(&mut status).add_replica();
    assert_eq!(wait_poll(&status, 29, 0, 0, 1000), Some(Resp::Integer(0)));
    assert_eq!(wait_poll(&status, 29, -3, 0, 1000), Some(Resp::Integer(0)));
    assert_eq!(wait_poll(&status, 29, 1, 0, 1000), None);
}

#[test]
fn wait_that_would_overflow_the_offset_is_refused() {
    let mut keyspace = Keyspace::new();
    let mut status = leader();
    master_mut(&mut status).repl_offset = u64::MAX - 36;
    master_mut(&mut status).repl_data_offset = 10;
    assert_eq!(
        handle_command(&RedisCommands::Wait(1, 10), &mut keyspace, &mut status, 0),
        Err(DispatchError::OffsetOverflow)
    );
    assert_eq!(master_of(&status).repl_offset, u64::MAX - 36);
}
