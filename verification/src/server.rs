//! The role of a server and what a leader keeps about its followers.
//!
//! The sockets are none of this module's business: a follower is known here
//! by its place in the registry, and whoever holds the sockets keeps them in
//! the same order.
use crate::ascii::{ascii_bytes, literal};
use crate::decimal::{nat_digits, push_digits};
use crate::hex::{decode_hex, hex_pair_at, spec_decode_hex};
use vstd::pervasive::unreached;
use vstd::prelude::*;
use vstd::string::*;

verus! {

/// An empty dataset in the snapshot format, as hexadecimal text.
pub const EMPTY_RDB: &'static str =
    "524544495330303131fa0972656469732d76657205372e322e30fa0a72656469732d62697473c040fa056374696d65c26d08bc65fa08757365642d6d656dc2b0c41000fa08616f662d62617365c000fff06e3bfec0ff5aa2";

/// The replication id that a leader starts with.
pub const DEFAULT_REPL_ID: &'static str = "8371b4fb1155b71f4a04d3e1bc3e18c4a990aeeb";

/// The snapshot that a leader starts out with: the bytes that `EMPTY_RDB`
/// writes.
pub open spec fn spec_empty_snapshot() -> Seq<u8> {
    spec_decode_hex(EMPTY_RDB.spec_bytes())->Ok_0
}

/// `EMPTY_RDB` is the hexadecimal writing of 88 bytes.
pub proof fn lemma_empty_snapshot()
    ensures
        spec_decode_hex(EMPTY_RDB.spec_bytes()) is Ok,
        spec_empty_snapshot().len() == 88,
{
    reveal_strlit(
        "524544495330303131fa0972656469732d76657205372e322e30fa0a72656469732d62697473c040fa056374696d65c26d08bc65fa08757365642d6d656dc2b0c41000fa08616f662d62617365c000fff06e3bfec0ff5aa2",
    );
    let text = EMPTY_RDB;
    assert(is_ascii(text));
    is_ascii_spec_bytes(text);
    let bytes = text.spec_bytes();
    assert forall|k: int| 0 <= k < 88 implies #[trigger] hex_pair_at(bytes, k) is Some by {
        assert(bytes[2 * k] == text@[2 * k] as u8);
        assert(bytes[2 * k + 1] == text@[2 * k + 1] as u8);
    }
}

/// What a leader knows of one follower.
#[derive(Debug, Clone, PartialEq, Eq)]
pub struct ReplicaData {
    /// The highest offset that the follower has acknowledged.
    pub latest_offset: u64,
}

#[derive(Debug, Clone, PartialEq, Eq)]
pub struct MasterStatus {
    pub repl_id: Vec<u8>,
    /// Bytes of replication stream emitted so far, probes included.
    pub repl_offset: u64,
    /// `repl_offset` as it stood after the last write of a client.
    pub repl_data_offset: u64,
    pub replicas_data: Vec<ReplicaData>,
    /// The snapshot sent to a follower that asks for a full resync.
    pub snapshot: Vec<u8>,
}

#[derive(Debug, Clone, PartialEq, Eq)]
pub struct ReplicaStatus {
    pub master_address: String,
    pub master_port: u16,
}

#[derive(Debug, Clone, PartialEq, Eq)]
pub enum ServerType {
    Master(MasterStatus),
    Replica(ReplicaStatus),
}

#[derive(Debug, Clone, PartialEq, Eq)]
pub struct ServerStatus {
    pub server_type: ServerType,
}

/// The mathematical value of a `MasterStatus`.
pub struct Leader {
    pub repl_id: Seq<u8>,
    pub repl_offset: u64,
    pub data_offset: u64,
    /// The acknowledged offset of each follower, in order of registration.
    pub acks: Seq<u64>,
    pub snapshot: Seq<u8>,
}

/// The mathematical value of a `ServerType`.
pub enum Role {
    Leader(Leader),
    Follower { host: Seq<char>, port: u16 },
}

/// The acknowledged offsets of a run of followers.
pub open spec fn acks_of(replicas: Seq<ReplicaData>) -> Seq<u64> {
    Seq::new(replicas.len(), |i: int| replicas[i].latest_offset)
}

impl View for MasterStatus {
    type V = Leader;

    open spec fn view(&self) -> Leader {
        Leader {
            repl_id: self.repl_id@,
            repl_offset: self.repl_offset,
            data_offset: self.repl_data_offset,
            acks: acks_of(self.replicas_data@),
            snapshot: self.snapshot@,
        }
    }
}

impl View for ServerType {
    type V = Role;

    open spec fn view(&self) -> Role {
        match self {
            ServerType::Master(status) => Role::Leader(status@),
            ServerType::Replica(status) => Role::Follower {
                host: status.master_address@,
                port: status.master_port,
            },
        }
    }
}

impl View for ServerStatus {
    type V = Role;

    open spec fn view(&self) -> Role {
        self.server_type@
    }
}

/// How many of `acks` have reached `target`.
pub open spec fn spec_count_synced(acks: Seq<u64>, target: u64) -> nat
    decreases acks.len(),
{
    if acks.len() == 0 {
        0
    } else {
        spec_count_synced(acks.drop_last(), target) + if acks.last() >= target {
            1nat
        } else {
            0nat
        }
    }
}

/// No more followers are counted than there are.
pub proof fn lemma_count_synced_bound(acks: Seq<u64>, target: u64)
    ensures
        spec_count_synced(acks, target) <= acks.len(),
    decreases acks.len(),
{
    if acks.len() > 0 {
        lemma_count_synced_bound(acks.drop_last(), target);
    }
}

/// What `acks` becomes when follower `index` acknowledges `offset`: its entry
/// rises to `offset` and never falls; an unknown follower or a negative offset
/// changes nothing.
pub open spec fn spec_record_ack(acks: Seq<u64>, index: int, offset: i64) -> Seq<u64> {
    if 0 <= index < acks.len() && offset > acks[index] {
        acks.update(index, offset as u64)
    } else {
        acks
    }
}

/// The text that `INFO` reports about a role.
pub open spec fn spec_info_text(role: Role) -> Seq<u8> {
    match role {
        Role::Leader(leader) => ascii_bytes("role:master\r\nmaster_replid:"@) + leader.repl_id
            + ascii_bytes("\r\nmaster_repl_offset:"@) + nat_digits(leader.repl_offset as nat),
        Role::Follower { .. } => ascii_bytes("role:slave"@),
    }
}

impl MasterStatus {
    /// A leader that has emitted nothing, has no followers and hands out
    /// `snapshot`.
    pub fn new(repl_id: Vec<u8>, snapshot: Vec<u8>) -> (r: MasterStatus)
        ensures
            r@ == (Leader {
                repl_id: repl_id@,
                repl_offset: 0,
                data_offset: 0,
                acks: Seq::empty(),
                snapshot: snapshot@,
            }),
    {
        let r = MasterStatus {
            repl_id,
            repl_offset: 0,
            repl_data_offset: 0,
            replicas_data: Vec::new(),
            snapshot,
        };
        proof {
            assert(r@.acks =~= Seq::<u64>::empty());
        }
        r
    }

    /// A leader as a server starts out: the default replication id and the
    /// empty dataset, 88 bytes of it, as its snapshot.
    pub fn initial() -> (r: MasterStatus)
        ensures
            r@ == (Leader {
                repl_id: ascii_bytes(DEFAULT_REPL_ID@),
                repl_offset: 0,
                data_offset: 0,
                acks: Seq::empty(),
                snapshot: spec_empty_snapshot(),
            }),
            r@.snapshot.len() == 88,
    {
        proof {
            reveal_strlit("8371b4fb1155b71f4a04d3e1bc3e18c4a990aeeb");
            lemma_empty_snapshot();
        }
        let snapshot = match decode_hex(EMPTY_RDB) {
            Ok(snapshot) => snapshot,
            Err(_) => unreached(),
        };
        MasterStatus::new(literal(DEFAULT_REPL_ID), snapshot)
    }

    /// Registers a follower that has acknowledged nothing yet; the result is
    /// its place in the registry.
    pub fn add_replica(&mut self) -> (index: usize)
        ensures
            index == old(self)@.acks.len(),
            final(self)@ == (Leader { acks: old(self)@.acks.push(0), ..old(self)@ }),
    {
        let index = self.replicas_data.len();
        self.replicas_data.push(ReplicaData { latest_offset: 0 });
        proof {
            assert(final(self)@.acks =~= old(self)@.acks.push(0));
        }
        index
    }

    /// Takes note that follower `index` has acknowledged `offset`.
    pub fn record_ack(&mut self, index: usize, offset: i64)
        ensures
            final(self)@ == (Leader {
                acks: spec_record_ack(old(self)@.acks, index as int, offset),
                ..old(self)@
            }),
    {
        if index < self.replicas_data.len() && offset >= 0 {
            if offset as u64 > self.replicas_data[index].latest_offset {
                self.replicas_data[index] = ReplicaData { latest_offset: offset as u64 };
            }
        }
        proof {
            assert(final(self)@.acks =~= spec_record_ack(old(self)@.acks, index as int, offset));
        }
    }

    /// How many followers have acknowledged `target` or more.
    pub fn count_synced(&self, target: u64) -> (count: usize)
        ensures
            count == spec_count_synced(self@.acks, target),
    {
        let mut count: usize = 0;
        let mut i: usize = 0;
        let ghost acks = self@.acks;
        proof {
            assert(acks.take(0) =~= Seq::<u64>::empty());
        }
        while i < self.replicas_data.len()
            invariant
                i <= self.replicas_data@.len(),
                acks == self@.acks,
                acks.len() == self.replicas_data@.len(),
                count == spec_count_synced(acks.take(i as int), target),
                count <= i,
            decreases self.replicas_data@.len() - i,
        {
            proof {
                assert(acks.take(i as int + 1).drop_last() =~= acks.take(i as int));
                assert(acks.take(i as int + 1).last() == acks[i as int]);
            }
            if self.replicas_data[i].latest_offset >= target {
                count = count + 1;
            }
            i = i + 1;
        }
        proof {
            assert(acks.take(i as int) =~= acks);
        }
        count
    }
}

impl ServerType {
    /// The text that `INFO` reports.
    pub fn encode_to_info_string(&self) -> (r: Vec<u8>)
        ensures
            r@ == spec_info_text(self@),
    {
        proof {
            reveal_strlit("role:master\r\nmaster_replid:");
            reveal_strlit("\r\nmaster_repl_offset:");
            reveal_strlit("role:slave");
        }
        match self {
            ServerType::Master(status) => {
                let mut text = literal("role:master\r\nmaster_replid:");
                text.extend_from_slice(status.repl_id.as_slice());
                let mut label = literal("\r\nmaster_repl_offset:");
                text.append(&mut label);
                push_digits(status.repl_offset, &mut text);
                proof {
                    assert(text@ =~= spec_info_text(self@));
                }
                text
            },
            ServerType::Replica(_) => literal("role:slave"),
        }
    }
}

} // verus!
