use redis_lite::commands::CommandError;
use redis_lite::dispatch::{Action, DispatchError};
use redis_lite::keyspace::Keyspace;
use redis_lite::replica::follow_master;
use redis_lite::server::{MasterStatus, ReplicaStatus, ServerStatus, ServerType};
use redis_lite::session::{
    handle_client, handle_replica_commands, CloseReason, InboundStep, SessionStep,
};
use redis_lite::tokenizer::Resp;

fn leader() -> ServerStatus {
    ServerStatus { server_type: ServerType::Master(MasterStatus::initial()) }
}

fn follower() -> ServerStatus {
    ServerStatus {
        server_type: ServerType::Replica(ReplicaStatus {
            master_address: "127.0.0.1".to_string(),
            master_port: 6379,
        }),
    }
}

fn master_of(status: &ServerStatus) -> &MasterStatus {
    match &status.server_type {
        ServerType::Master(master) => master,
        ServerType::Replica(_) => panic!("not a master"),
    }
}

fn reply_bytes(step: SessionStep) -> (usize, Vec<u8>) {
    match step {
        SessionStep::Act { consumed, action: Action::Reply(reply) } => {
            (consumed, reply.encode_to_bytes())
        }
        SessionStep::Act { consumed, action: Action::Propagate { reply, .. } } => {
            (consumed, reply.encode_to_bytes())
        }
        other => panic!("unexpected {:?}", other),
    }
}

#[test]
fn single_client_ping() {
    let mut keyspace = Keyspace::new();
    let mut status = leader();
    let step = handle_client(b"*1\r\n$4\r\nPING\r\n", &mut keyspace, &mut status, 0);
    assert_eq!(reply_bytes(step), (14, b"+PONG\r\n".to_vec()));
}

#[test]
fn echo_binary() {
    let mut keyspace = Keyspace::new();
    let mut status = leader();
    let step = handle_client(b"*2\r\n$4\r\nECHO\r\n$3\r\nhi!\r\n", &mut keyspace, &mut status, 0);
    assert_eq!(reply_bytes(step), (23, b"+hi!\r\n".to_vec()));
}

#[test]
fn set_with_px_then_get() {
    let mut keyspace = Keyspace::new();
    let mut status = leader();
    let set = b"*5\r\n$3\r\nSET\r\n$1\r\nk\r\n$1\r\nv\r\n$2\r\nPX\r\n$3\r\n100\r\n";
    let get = b"*2\r\n$3\r\nGET\r\n$1\r\nk\r\n";
    assert_eq!(
        reply_bytes(handle_client(set, &mut keyspace, &mut status, 0)),
        (set.len(), b"+OK\r\n".to_vec())
    );
    assert_eq!(
        reply_bytes(handle_client(get, &mut keyspace, &mut status, 50)),
        (get.len(), b"$1\r\nv\r\n".to_vec())
    );
    assert_eq!(
        reply_bytes(handle_client(get, &mut keyspace, &mut status, 200)),
        (get.len(), b"$-1\r\n".to_vec())
    );
}

#[test]
fn pipelined_requests_are_taken_one_by_one() {
    let mut keyspace = Keyspace::new();
    let mut status = leader();
    let input = b"*1\r\n$4\r\nPING\r\n*2\r\n$4\r\nECHO\r\n$1\r\nx\r\n*1\r\n$4\r\nPI";
    let (used, reply) = reply_bytes(handle_client(input, &mut keyspace, &mut status, 0));
    assert_eq!((used, reply), (14, b"+PONG\r\n".to_vec()));
    let rest = &input[used..];
    let (used, reply) = reply_bytes(handle_client(rest, &mut keyspace, &mut status, 0));
    assert_eq!((used, reply), (21, b"+x\r\n".to_vec()));
    let rest = &rest[used..];
    assert_eq!(handle_client(rest, &mut keyspace, &mut status, 0), SessionStep::NeedMore);
}

#[test]
fn incomplete_request_needs_more() {
    let mut keyspace = Keyspace::new();
    let mut status = leader();
    assert_eq!(handle_client(b"", &mut keyspace, &mut status, 0), SessionStep::NeedMore);
    assert_eq!(handle_client(b"*1\r\n$4\r\nPI", &mut keyspace, &mut status, 0), SessionStep::NeedMore);
}

#[test]
fn malformed_bytes_close_the_connection() {
    let mut keyspace = Keyspace::new();
    let mut status = leader();
    assert_eq!(
        handle_client(b"PING\r\n", &mut keyspace, &mut status, 0),
        SessionStep::Close(CloseReason::Malformed)
    );
}

#[test]
fn unknown_request_closes_the_connection() {
    let mut keyspace = Keyspace::new();
    let mut status = leader();
    assert_eq!(
        handle_client(b"*1\r\n$4\r\nQUIT\r\n", &mut keyspace, &mut status, 0),
        SessionStep::Close(CloseReason::NotUnderstood(CommandError::UnknownCommand))
    );
    assert_eq!(
        handle_client(b"+PING\r\n", &mut keyspace, &mut status, 0),
        SessionStep::Close(CloseReason::NotUnderstood(CommandError::NotACommand))
    );
    assert_eq!(
        handle_client(b"*1\r\n$3\r\nGET\r\n", &mut keyspace, &mut status, 0),
        SessionStep::Close(CloseReason::NotUnderstood(CommandError::BadArguments))
    );
}

#[test]
fn write_to_follower_closes_the_connection() {
    let mut keyspace = Keyspace::new();
    let mut status = follower();
    assert_eq!(
        handle_client(b"*3\r\n$3\r\nSET\r\n$1\r\nk\r\n$1\r\nv\r\n", &mut keyspace, &mut status, 0),
        SessionStep::Close(CloseReason::Refused(DispatchError::ReadOnlyReplica))
    );
    assert_eq!(keyspace.len(), 0);
}

#[test]
fn psync_promotes_the_connection() {
    let mut keyspace = Keyspace::new();
    let mut status = leader();
    let request = b"*3\r\n$5\r\nPSYNC\r\n$1\r\n?\r\n$2\r\n-1\r\n";
    match handle_client(request, &mut keyspace, &mut status, 0) {
        SessionStep::Act { consumed, action: Action::FullResync { payload, replica_index } } => {
            assert_eq!(consumed, request.len());
            assert_eq!(replica_index, 0);
            assert!(payload.starts_with(b"+FULLRESYNC "));
            assert_eq!(&payload[payload.len() - 88..], master_of(&status).snapshot.as_slice());
        }
        other => panic!("unexpected {:?}", other),
    }
    assert_eq!(master_of(&status).replicas_data.len(), 1);
}

#[test]
fn acknowledgement_from_follower_is_noted() {
    let mut status = leader();
    if let ServerType::Master(master) = &mut status.server_type {
        master.add_replica();
        master.add_replica();
    }
    let ack = b"*3\r\n$8\r\nREPLCONF\r\n$3\r\nACK\r\n$2\r\n66\r\n";
    assert_eq!(handle_replica_commands(ack, &mut status, 1), InboundStep::Consumed(ack.len()));
    assert_eq!(master_of(&status).replicas_data[1].latest_offset, 66);
    assert_eq!(master_of(&status).replicas_data[0].latest_offset, 0);
    let older = b"*3\r\n$8\r\nREPLCONF\r\n$3\r\nACK\r\n$2\r\n29\r\n";
    assert_eq!(handle_replica_commands(older, &mut status, 1), InboundStep::Consumed(older.len()));
    assert_eq!(master_of(&status).replicas_data[1].latest_offset, 66);
}

#[test]
fn other_traffic_from_follower() {
    let mut status = leader();
    if let ServerType::Master(master) = &mut status.server_type {
        master.add_replica();
    }
    assert_eq!(
        handle_replica_commands(b"*1\r\n$4\r\nPING\r\n", &mut status, 0),
        InboundStep::Consumed(14)
    );
    assert_eq!(handle_replica_commands(b"*1\r\n$4\r\nPI", &mut status, 0), InboundStep::NeedMore);
    assert_eq!(
        handle_replica_commands(b"ACK 5\r\n", &mut status, 0),
        InboundStep::Close(CloseReason::Malformed)
    );
    assert_eq!(
        handle_replica_commands(b"+OK\r\n", &mut status, 0),
        InboundStep::Close(CloseReason::NotUnderstood(CommandError::NotACommand))
    );
    assert_eq!(master_of(&status).replicas_data[0].latest_offset, 0);
}

#[test]
fn replication_makes_the_write_visible_on_the_follower() {
    let mut leader_keys = Keyspace::new();
    let mut leader_status = leader();
    let mut follower_keys = Keyspace::new();
    let mut wire: Vec<u8> = Vec::new();

    let psync = b"*3\r\n$5\r\nPSYNC\r\n$1\r\n?\r\n$2\r\n-1\r\n";
    let index = match handle_client(psync, &mut leader_keys, &mut leader_status, 0) {
        SessionStep::Act { action: Action::FullResync { replica_index, .. }, .. } => replica_index,
        other => panic!("unexpected {:?}", other),
    };

    for request in [
        b"*3\r\n$3\r\nSET\r\n$3\r\nfoo\r\n$3\r\nbar\r\n".as_slice(),
        b"*3\r\n$3\r\nSET\r\n$3\r\nbaz\r\n$1\r\n1\r\n".as_slice(),
        b"*3\r\n$3\r\nSET\r\n$3\r\nfoo\r\n$1\r\n2\r\n".as_slice(),
    ] {
        match handle_client(request, &mut leader_keys, &mut leader_status, 10) {
            SessionStep::Act { action: Action::Propagate { stream, .. }, .. } => {
                wire.extend_from_slice(&stream)
            }
            other => panic!("unexpected {:?}", other),
        }
    }
    assert_eq!(master_of(&leader_status).repl_offset, wire.len() as u64);

    let probe = match handle_client(
        b"*3\r\n$4\r\nWAIT\r\n$1\r\n1\r\n$3\r\n500\r\n",
        &mut leader_keys,
        &mut leader_status,
        10,
    ) {
        SessionStep::Act { action: Action::Probe { probe, target, .. }, .. } => {
            assert_eq!(target, wire.len() as u64);
            probe
        }
        other => panic!("unexpected {:?}", other),
    };
    wire.extend_from_slice(&probe);
    assert_eq!(master_of(&leader_status).repl_offset, wire.len() as u64);

    let mut ack_offset = 0i64;
    let mut position = 0usize;
    let mut answers: Vec<Resp> = Vec::new();
    while let Some(applied) =
        follow_master(&wire[position..], &mut follower_keys, ack_offset, 20).unwrap()
    {
        assert!(applied.ack_offset >= ack_offset);
        assert_eq!(applied.ack_offset, ack_offset + applied.consumed as i64);
        position += applied.consumed;
        ack_offset = applied.ack_offset;
        if applied.reply != Resp::Empty {
            answers.push(applied.reply);
        }
    }
    assert_eq!(position, wire.len());
    assert_eq!(ack_offset, wire.len() as i64);
    assert_eq!(follower_keys.len(), 2);
    assert_eq!(follower_keys.get(b"foo", 20), Some(b"2".to_vec()));
    assert_eq!(follower_keys.get(b"baz", 20), Some(b"1".to_vec()));
    assert_eq!(follower_keys.get(b"foo", 20), leader_keys.get(b"foo", 20));
    assert_eq!(follower_keys.get(b"baz", 20), leader_keys.get(b"baz", 20));

    assert_eq!(answers.len(), 1);
    let answer = answers[0].encode_to_bytes();
    assert_eq!(
        handle_replica_commands(&answer, &mut leader_status, index),
        InboundStep::Consumed(answer.len())
    );
    assert_eq!(
        redis_lite::dispatch::wait_poll(&leader_status, wire.len() as u64 - 37, 1, 0, 500),
        Some(Resp::Integer(1))
    );
}
