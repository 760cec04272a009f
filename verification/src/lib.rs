//! The engine of a small in-memory key/value server with single-leader
//! replication, without its sockets: the frame codec, the command model, the
//! keyspace, the role state, and what leader and follower do with what they
//! receive.
//!
//! Every function here works on bytes and plain values that the caller hands
//! in, the current time included, and says in its contract what comes back.
pub mod ascii;
pub mod command_laws;
pub mod commands;
pub mod decimal;
pub mod dispatch;
pub mod hex;
pub mod keyspace;
pub mod replica;
pub mod replication_laws;
pub mod roundtrip;
pub mod server;
pub mod session;
pub mod tokenizer;
