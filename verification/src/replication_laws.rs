//! What holds of the offsets on both sides of replication, and of the
//! keyspace of a follower that has read the stream of its leader.
use crate::command_laws::lemma_parse_render;
use crate::commands::{spec_render, spec_render_items, Command, ReplConf};
use crate::decimal::{int_digits, nat_digits};
use crate::dispatch::{
    getack_command, spec_handle_command, spec_stream_of, DispatchError, Effect,
};
use crate::keyspace::Entry;
use crate::replica::{spec_follow_step, spec_master_command};
use crate::roundtrip::{lemma_decode_encode, lemma_decode_span, lemma_encode_len};
use crate::server::Role;
use crate::session::spec_inbound_step;
use crate::tokenizer::{spec_encode, wf_frame};
use vstd::prelude::*;

verus! {

/// A request whose byte strings are of a length that a machine can hold.
pub open spec fn wf_command(c: Command) -> bool {
    match c {
        Command::Echo(text) => text.len() <= usize::MAX,
        Command::Ping => true,
        Command::SetKey(opts) => opts.key.len() <= usize::MAX && opts.value.len() <= usize::MAX,
        Command::Get(key) => key.len() <= usize::MAX,
        Command::Info(_) => true,
        Command::ReplConf(conf) => match conf {
            ReplConf::ListeningPort(_) => true,
            ReplConf::Capability(capa) => capa.len() <= usize::MAX,
            ReplConf::GetAck(ack) => ack.len() <= usize::MAX,
            ReplConf::Ack(_) => true,
        },
        Command::PSync(repl_id, _) => repl_id.len() <= usize::MAX,
        Command::Wait(_, _) => true,
    }
}

/// The numeral of a 64-bit number has at most twenty digits.
pub proof fn lemma_nat_digits_short(n: nat)
    requires
        n <= u64::MAX,
    ensures
        nat_digits(n).len() <= 20,
{
    reveal_with_fuel(nat_digits, 21);
}

/// The numeral of a signed 64-bit number has at most twenty bytes.
pub proof fn lemma_int_digits_short(n: int)
    requires
        i64::MIN <= n <= i64::MAX,
    ensures
        int_digits(n).len() <= 20,
{
    reveal_with_fuel(nat_digits, 21);
}

/// The frame that asks for a well-formed request is well formed.
pub proof fn lemma_render_wf(c: Command)
    requires
        wf_command(c),
    ensures
        wf_frame(spec_render(c)),
{
    reveal_strlit("ECHO");
    reveal_strlit("PING");
    reveal_strlit("SET");
    reveal_strlit("PX");
    reveal_strlit("GET");
    reveal_strlit("INFO");
    reveal_strlit("REPLICATION");
    reveal_strlit("REPLCONF");
    reveal_strlit("LISTENING-PORT");
    reveal_strlit("CAPA");
    reveal_strlit("GETACK");
    reveal_strlit("ACK");
    reveal_strlit("PSYNC");
    reveal_strlit("WAIT");
    let items = spec_render_items(c);
    match c {
        Command::SetKey(opts) => {
            if let Some(ms) = opts.expire {
                lemma_nat_digits_short(ms as nat);
            }
        },
        Command::ReplConf(conf) => {
            match conf {
                ReplConf::ListeningPort(port) => {
                    lemma_nat_digits_short(port as nat);
                },
                ReplConf::Ack(offset) => {
                    lemma_int_digits_short(offset as int);
                },
                _ => {},
            }
        },
        Command::PSync(repl_id, offset) => {
            lemma_int_digits_short(offset as int);
        },
        Command::Wait(replicas, timeout) => {
            lemma_int_digits_short(replicas as int);
            lemma_nat_digits_short(timeout as nat);
        },
        _ => {},
    }
    assert forall|i: int| 0 <= i < items.len() implies wf_frame(#[trigger] items[i]) by {}
}

/// The bytes that an outcome sends to the followers.
pub open spec fn spec_sent_to_followers(result: Result<Effect, DispatchError>) -> Seq<u8> {
    match result {
        Ok(Effect::Propagate { stream, .. }) => stream,
        Ok(Effect::Probe { probe, .. }) => probe,
        _ => Seq::empty(),
    }
}

/// The replication offset of a leader never falls, and it rises by exactly
/// the length of what is sent to the followers; the offset of the last write
/// follows it on a write and stays where it is otherwise.
pub proof fn lemma_leader_offsets(c: Command, keyspace: Map<Seq<u8>, Entry>, role: Role, now: u64)
    requires
        role is Leader,
    ensures
        ({
            let outcome = spec_handle_command(c, keyspace, role, now);
            let before = role->Leader_0;
            let after = outcome.role->Leader_0;
            &&& outcome.role is Leader
            &&& after.repl_offset >= before.repl_offset
            &&& after.repl_offset == before.repl_offset + spec_sent_to_followers(
                outcome.result,
            ).len()
            &&& after.data_offset == (if outcome.result matches Ok(Effect::Propagate { .. }) {
                after.repl_offset
            } else {
                before.data_offset
            })
            &&& before.data_offset <= before.repl_offset ==> before.data_offset
                <= after.data_offset <= after.repl_offset
        }),
{
}

/// Every follower known before is known after, with an acknowledged offset
/// no lower than before.
pub open spec fn acks_kept(before: Seq<u64>, after: Seq<u64>) -> bool {
    before.len() <= after.len() && forall|i: int|
        0 <= i < before.len() ==> before[i] <= #[trigger] after[i]
}

/// What a leader knows of a follower never falls: no request and no
/// acknowledgement lowers the acknowledged offset of any follower or makes the
/// leader forget one.
pub proof fn lemma_acks_never_fall(
    c: Command,
    keyspace: Map<Seq<u8>, Entry>,
    buffer: Seq<u8>,
    replica_index: usize,
    role: Role,
    now: u64,
)
    requires
        role is Leader,
    ensures
        spec_handle_command(c, keyspace, role, now).role is Leader,
        acks_kept(
            role->Leader_0.acks,
            spec_handle_command(c, keyspace, role, now).role->Leader_0.acks,
        ),
        spec_inbound_step(buffer, role, replica_index).1 is Leader,
        acks_kept(
            role->Leader_0.acks,
            spec_inbound_step(buffer, role, replica_index).1->Leader_0.acks,
        ),
{
}

/// The offset of a follower never falls: every frame that it reads moves the
/// offset forward by the length of the frame.
pub proof fn lemma_follower_offset(
    buffer: Seq<u8>,
    keyspace: Map<Seq<u8>, Entry>,
    ack_offset: i64,
    now: u64,
)
    ensures
        spec_follow_step(buffer, keyspace, ack_offset, now) matches Ok(Some(step)) ==> {
            &&& step.ack_offset == ack_offset + step.consumed
            &&& step.ack_offset > ack_offset
            &&& 0 < step.consumed <= buffer.len()
        },
{
    lemma_decode_span(buffer);
}

/// What a keyspace becomes when a request is carried out at time `now`: a
/// write stores its value, any other request changes nothing.
pub open spec fn spec_store(m: Map<Seq<u8>, Entry>, c: Command, now: u64) -> Map<Seq<u8>, Entry> {
    match c {
        Command::SetKey(opts) => m.insert(
            opts.key,
            Entry { value: opts.value, expire: opts.expire, timestamp: now },
        ),
        _ => m,
    }
}

/// What a keyspace becomes when the requests `cmds` are carried out in order,
/// request number `i` at time `times[i]`.
pub open spec fn spec_store_all(m: Map<Seq<u8>, Entry>, cmds: Seq<Command>, times: Seq<u64>) -> Map<
    Seq<u8>,
    Entry,
>
    decreases cmds.len(),
{
    if cmds.len() == 0 {
        m
    } else {
        spec_store_all(spec_store(m, cmds[0], times[0]), cmds.skip(1), times.skip(1))
    }
}

/// The stream by which the requests `cmds` travel to a follower.
pub open spec fn spec_replicate(cmds: Seq<Command>) -> Seq<u8>
    decreases cmds.len(),
{
    if cmds.len() == 0 {
        Seq::empty()
    } else {
        spec_stream_of(cmds[0]) + spec_replicate(cmds.skip(1))
    }
}

/// A follower that reads `stream` to its end in as many steps as `times` has
/// entries, step number `i` at time `times[i]`: its keyspace and offset after
/// the last step, or nothing where a step fails or bytes are left over.
pub open spec fn spec_follow_all(
    stream: Seq<u8>,
    m: Map<Seq<u8>, Entry>,
    ack_offset: i64,
    times: Seq<u64>,
) -> Option<(Map<Seq<u8>, Entry>, i64)>
    decreases times.len(),
{
    if times.len() == 0 {
        if stream.len() == 0 {
            Some((m, ack_offset))
        } else {
            None
        }
    } else {
        match spec_follow_step(stream, m, ack_offset, times[0]) {
            Ok(Some(step)) => spec_follow_all(
                stream.skip(step.consumed),
                step.keyspace,
                step.ack_offset,
                times.skip(1),
            ),
            _ => None,
        }
    }
}

/// A leader that carries a request out changes its keyspace as `spec_store`
/// says, and what it sends to the followers for a write is the stream of that
/// write.
pub proof fn lemma_leader_stores(c: Command, keyspace: Map<Seq<u8>, Entry>, role: Role, now: u64)
    requires
        role is Leader,
        spec_handle_command(c, keyspace, role, now).result is Ok,
    ensures
        spec_handle_command(c, keyspace, role, now).keyspace == spec_store(keyspace, c, now),
        c is SetKey ==> spec_sent_to_followers(spec_handle_command(c, keyspace, role, now).result)
            == spec_stream_of(c),
{
}

/// A follower that carries a request of its leader out changes its keyspace
/// as `spec_store` says.
pub proof fn lemma_follower_stores(
    c: Command,
    keyspace: Map<Seq<u8>, Entry>,
    ack_offset: i64,
    now: u64,
)
    ensures
        spec_master_command(c, keyspace, ack_offset, now).0 == spec_store(keyspace, c, now),
{
}

/// A follower that has read the whole stream of the requests `cmds` holds
/// what carrying out the writes among them, in order, makes of the keyspace
/// it started with, and its offset has moved by the length of the stream.
pub proof fn lemma_follower_catches_up(
    cmds: Seq<Command>,
    m: Map<Seq<u8>, Entry>,
    ack_offset: i64,
    times: Seq<u64>,
)
    requires
        cmds.len() == times.len(),
        forall|i: int| 0 <= i < cmds.len() ==> wf_command(#[trigger] cmds[i]),
        ack_offset + spec_replicate(cmds).len() <= i64::MAX,
    ensures
        spec_follow_all(spec_replicate(cmds), m, ack_offset, times) == Some(
            (spec_store_all(m, cmds, times), (ack_offset + spec_replicate(cmds).len()) as i64),
        ),
    decreases cmds.len(),
{
    if cmds.len() > 0 {
        let first = cmds[0];
        let rest = cmds.skip(1);
        let stream = spec_replicate(cmds);
        let frame = spec_render(first);
        let tail = spec_replicate(rest);
        let span = spec_encode(frame).len() as int;
        assert(wf_command(first));
        lemma_render_wf(first);
        lemma_encode_len(frame);
        lemma_decode_encode(frame, tail);
        lemma_parse_render(first);
        lemma_follower_stores(first, m, 0, times[0]);
        assert(stream == spec_encode(frame) + tail);
        assert(stream.skip(span) =~= tail);
        let offset = (ack_offset + span) as i64;
        assert forall|i: int| 0 <= i < rest.len() implies wf_command(#[trigger] rest[i]) by {
            assert(rest[i] == cmds[i + 1]);
        }
        lemma_follower_catches_up(rest, spec_store(m, first, times[0]), offset, times.skip(1));
    }
}

/// The request that goes out to the followers when a leader has carried out
/// `c` with the result `result`: the request itself for a write, the probe
/// for a `WAIT` that has to ask, none otherwise.
pub open spec fn spec_wire_command(c: Command, result: Result<Effect, DispatchError>) -> Option<
    Command,
> {
    match result {
        Ok(Effect::Propagate { .. }) => Some(c),
        Ok(Effect::Probe { .. }) => Some(getack_command()),
        _ => None,
    }
}

/// A leader that carries out the requests `reqs` one after the other, request
/// number `i` at time `times[i]`.
pub struct LeaderRun {
    /// Everything sent to the followers, in order.
    pub stream: Seq<u8>,
    /// The requests that `stream` carries, in order.
    pub wire: Seq<Command>,
    /// When each request of `wire` was carried out.
    pub wire_times: Seq<u64>,
    pub keyspace: Map<Seq<u8>, Entry>,
    pub role: Role,
}

pub open spec fn spec_lead_all(
    reqs: Seq<Command>,
    keyspace: Map<Seq<u8>, Entry>,
    role: Role,
    times: Seq<u64>,
) -> LeaderRun
    decreases reqs.len(),
{
    if reqs.len() == 0 {
        LeaderRun {
            stream: Seq::empty(),
            wire: Seq::empty(),
            wire_times: Seq::empty(),
            keyspace,
            role,
        }
    } else {
        let outcome = spec_handle_command(reqs[0], keyspace, role, times[0]);
        let rest = spec_lead_all(reqs.skip(1), outcome.keyspace, outcome.role, times.skip(1));
        match spec_wire_command(reqs[0], outcome.result) {
            Some(sent) => LeaderRun {
                stream: spec_stream_of(sent) + rest.stream,
                wire: seq![sent] + rest.wire,
                wire_times: seq![times[0]] + rest.wire_times,
                ..rest
            },
            None => rest,
        }
    }
}

/// What a leader sends is the stream of the requests on its wire, which are
/// well formed where the requests of its clients are; its offset moves by the
/// length of what it sends; and its keyspace is what carrying out the
/// requests on the wire makes of the keyspace it started with.
pub proof fn lemma_leader_run(
    reqs: Seq<Command>,
    keyspace: Map<Seq<u8>, Entry>,
    role: Role,
    times: Seq<u64>,
)
    requires
        role is Leader,
        reqs.len() == times.len(),
    ensures
        ({
            let run = spec_lead_all(reqs, keyspace, role, times);
            &&& run.stream == spec_replicate(run.wire)
            &&& run.wire.len() == run.wire_times.len()
            &&& run.role is Leader
            &&& run.role->Leader_0.repl_offset == role->Leader_0.repl_offset + run.stream.len()
            &&& run.keyspace == spec_store_all(keyspace, run.wire, run.wire_times)
            &&& (forall|i: int| 0 <= i < reqs.len() ==> wf_command(#[trigger] reqs[i]))
                ==> (forall|j: int| 0 <= j < run.wire.len() ==> wf_command(#[trigger] run.wire[j]))
        }),
    decreases reqs.len(),
{
    if reqs.len() > 0 {
        let first = reqs[0];
        let outcome = spec_handle_command(first, keyspace, role, times[0]);
        lemma_leader_offsets(first, keyspace, role, times[0]);
        lemma_leader_run(reqs.skip(1), outcome.keyspace, outcome.role, times.skip(1));
        let rest = spec_lead_all(reqs.skip(1), outcome.keyspace, outcome.role, times.skip(1));
        let run = spec_lead_all(reqs, keyspace, role, times);
        reveal_strlit("*");
        match spec_wire_command(first, outcome.result) {
            Some(sent) => {
                assert(run.wire.skip(1) =~= rest.wire);
                assert(run.wire_times.skip(1) =~= rest.wire_times);
                assert(outcome.keyspace == spec_store(keyspace, sent, times[0]));
                assert(spec_sent_to_followers(outcome.result) == spec_stream_of(sent));
                if forall|i: int| 0 <= i < reqs.len() ==> wf_command(#[trigger] reqs[i]) {
                    assert(wf_command(reqs[0]));
                    assert forall|i: int| 0 <= i < reqs.skip(1).len() implies wf_command(
                        #[trigger] reqs.skip(1)[i],
                    ) by {
                        assert(reqs.skip(1)[i] == reqs[i + 1]);
                    }
                    assert forall|j: int| 0 <= j < run.wire.len() implies wf_command(
                        #[trigger] run.wire[j],
                    ) by {
                        if j > 0 {
                            assert(run.wire[j] == rest.wire[j - 1]);
                        }
                    }
                }
            },
            None => {
                assert(spec_sent_to_followers(outcome.result) =~= Seq::<u8>::empty());
                if forall|i: int| 0 <= i < reqs.len() ==> wf_command(#[trigger] reqs[i]) {
                    assert forall|i: int| 0 <= i < reqs.skip(1).len() implies wf_command(
                        #[trigger] reqs.skip(1)[i],
                    ) by {
                        assert(reqs.skip(1)[i] == reqs[i + 1]);
                    }
                }
            },
        }
    }
}

/// Two keyspaces that hold the same values with the same times to live under
/// the same keys, whenever each value was stored.
pub open spec fn same_data(a: Map<Seq<u8>, Entry>, b: Map<Seq<u8>, Entry>) -> bool {
    &&& a.dom() == b.dom()
    &&& forall|key: Seq<u8>| #[trigger]
        a.dom().contains(key) ==> a[key].value == b[key].value && a[key].expire == b[key].expire
}

/// The same requests make the same data whenever they are carried out.
pub proof fn lemma_same_requests_same_data(
    a: Map<Seq<u8>, Entry>,
    b: Map<Seq<u8>, Entry>,
    cmds: Seq<Command>,
    times_a: Seq<u64>,
    times_b: Seq<u64>,
)
    requires
        same_data(a, b),
        cmds.len() == times_a.len(),
        cmds.len() == times_b.len(),
    ensures
        same_data(spec_store_all(a, cmds, times_a), spec_store_all(b, cmds, times_b)),
    decreases cmds.len(),
{
    if cmds.len() > 0 {
        let next_a = spec_store(a, cmds[0], times_a[0]);
        let next_b = spec_store(b, cmds[0], times_b[0]);
        assert(next_a.dom() =~= next_b.dom());
        lemma_same_requests_same_data(
            next_a,
            next_b,
            cmds.skip(1),
            times_a.skip(1),
            times_b.skip(1),
        );
    }
}

/// A follower that started empty and has read all that its leader, which
/// started empty too, has sent while carrying out `reqs` holds the same data
/// as the leader: what the writes among `reqs` make of an empty keyspace.
pub proof fn lemma_replication(
    reqs: Seq<Command>,
    role: Role,
    times: Seq<u64>,
    ack_offset: i64,
    follower_times: Seq<u64>,
)
    requires
        role is Leader,
        reqs.len() == times.len(),
        forall|i: int| 0 <= i < reqs.len() ==> wf_command(#[trigger] reqs[i]),
        follower_times.len() == spec_lead_all(reqs, Map::empty(), role, times).wire.len(),
        ack_offset + spec_lead_all(reqs, Map::empty(), role, times).stream.len() <= i64::MAX,
    ensures
        ({
            let run = spec_lead_all(reqs, Map::empty(), role, times);
            let followed = spec_follow_all(run.stream, Map::empty(), ack_offset, follower_times);
            &&& followed matches Some((keyspace, offset))
            &&& keyspace == spec_store_all(Map::empty(), run.wire, follower_times)
            &&& offset == ack_offset + run.stream.len()
            &&& same_data(keyspace, run.keyspace)
        }),
{
    let empty = Map::<Seq<u8>, Entry>::empty();
    let run = spec_lead_all(reqs, empty, role, times);
    lemma_leader_run(reqs, empty, role, times);
    lemma_follower_catches_up(run.wire, empty, ack_offset, follower_times);
    lemma_same_requests_same_data(empty, empty, run.wire, follower_times, run.wire_times);
}

} // verus!
