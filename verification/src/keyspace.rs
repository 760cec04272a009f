//! The keyspace: a volatile mapping from key to value with lazy expiry.
//!
//! Time is a count of milliseconds on a clock of the caller's choosing; every
//! operation that depends on it takes the current reading as an argument.
use crate::ascii::{bytes_eq, copy_bytes};
use vstd::prelude::*;

verus! {

/// What is stored under a key.
#[derive(Debug, Clone, PartialEq, Eq)]
pub struct Value {
    pub value: Vec<u8>,
    /// Time to live in milliseconds, counted from `timestamp`.
    pub expire: Option<u64>,
    /// When the value was stored.
    pub timestamp: u64,
}

/// The mathematical value of a `Value`.
pub struct Entry {
    pub value: Seq<u8>,
    pub expire: Option<u64>,
    pub timestamp: u64,
}

impl View for Value {
    type V = Entry;

    open spec fn view(&self) -> Entry {
        Entry { value: self.value@, expire: self.expire, timestamp: self.timestamp }
    }
}

/// Whether an entry can still be seen at time `now`: it has no time to live,
/// or less than that has passed since it was stored.
pub open spec fn is_live(entry: Entry, now: u64) -> bool {
    match entry.expire {
        None => true,
        Some(ttl) => now - entry.timestamp < ttl,
    }
}

/// What a read of `key` at time `now` observes.
pub open spec fn spec_lookup(m: Map<Seq<u8>, Entry>, key: Seq<u8>, now: u64) -> Option<Seq<u8>> {
    if m.dom().contains(key) && is_live(m[key], now) {
        Some(m[key].value)
    } else {
        None
    }
}

/// One key with what is stored under it.
struct Slot {
    key: Vec<u8>,
    item: Value,
}

/// The mapping that a run of slots stands for; of two slots with one key the
/// later counts.
spec fn map_of(slots: Seq<Slot>) -> Map<Seq<u8>, Entry>
    decreases slots.len(),
{
    if slots.len() == 0 {
        Map::empty()
    } else {
        map_of(slots.drop_last()).insert(slots.last().key@, slots.last().item@)
    }
}

spec fn distinct_keys(slots: Seq<Slot>) -> bool {
    forall|i: int, j: int|
        0 <= i < slots.len() && 0 <= j < slots.len() && i != j ==> #[trigger] slots[i].key@
            != #[trigger] slots[j].key@
}

spec fn has_key(slots: Seq<Slot>, key: Seq<u8>) -> bool {
    exists|i: int| 0 <= i < slots.len() && #[trigger] slots[i].key@ == key
}

proof fn lemma_map_of_dom(slots: Seq<Slot>)
    ensures
        forall|key: Seq<u8>| #[trigger] map_of(slots).dom().contains(key) <==> has_key(slots, key),
        map_of(slots).dom().finite(),
    decreases slots.len(),
{
    if slots.len() > 0 {
        let front = slots.drop_last();
        lemma_map_of_dom(front);
        assert forall|key: Seq<u8>| #[trigger]
            map_of(slots).dom().contains(key) <==> has_key(slots, key) by {
            if has_key(slots, key) {
                let i = choose|i: int| 0 <= i < slots.len() && #[trigger] slots[i].key@ == key;
                if i < front.len() {
                    assert(front[i].key@ == key);
                    assert(has_key(front, key));
                }
            }
            if map_of(slots).dom().contains(key) {
                if key == slots.last().key@ {
                    assert(slots[slots.len() - 1].key@ == key);
                } else {
                    assert(has_key(front, key));
                    let i = choose|i: int| 0 <= i < front.len() && #[trigger] front[i].key@ == key;
                    assert(slots[i].key@ == key);
                }
            }
        }
    }
}

proof fn lemma_distinct_front(slots: Seq<Slot>)
    requires
        distinct_keys(slots),
        slots.len() > 0,
    ensures
        distinct_keys(slots.drop_last()),
{
    let front = slots.drop_last();
    assert forall|a: int, b: int|
        0 <= a < front.len() && 0 <= b < front.len() && a != b implies #[trigger] front[a].key@
        != #[trigger] front[b].key@ by {
        assert(front[a].key@ == slots[a].key@);
        assert(front[b].key@ == slots[b].key@);
    }
}

proof fn lemma_distinct_push(slots: Seq<Slot>, slot: Slot)
    requires
        distinct_keys(slots),
        !has_key(slots, slot.key@),
    ensures
        distinct_keys(slots.push(slot)),
{
    let after = slots.push(slot);
    assert forall|a: int, b: int|
        0 <= a < after.len() && 0 <= b < after.len() && a != b implies #[trigger] after[a].key@
        != #[trigger] after[b].key@ by {
        if a < slots.len() {
            assert(after[a].key@ == slots[a].key@);
        }
        if b < slots.len() {
            assert(after[b].key@ == slots[b].key@);
        }
    }
}

proof fn lemma_map_of_index(slots: Seq<Slot>, i: int)
    requires
        distinct_keys(slots),
        0 <= i < slots.len(),
    ensures
        map_of(slots).dom().contains(slots[i].key@),
        map_of(slots)[slots[i].key@] == slots[i].item@,
    decreases slots.len(),
{
    let front = slots.drop_last();
    if i < slots.len() - 1 {
        lemma_distinct_front(slots);
        lemma_map_of_index(front, i);
        assert(front[i] == slots[i]);
        assert(slots[i].key@ != slots[slots.len() - 1].key@);
    }
}

proof fn lemma_map_of_len(slots: Seq<Slot>)
    requires
        distinct_keys(slots),
    ensures
        map_of(slots).dom().finite(),
        map_of(slots).dom().len() == slots.len(),
    decreases slots.len(),
{
    lemma_map_of_dom(slots);
    if slots.len() > 0 {
        let front = slots.drop_last();
        lemma_distinct_front(slots);
        lemma_map_of_len(front);
        lemma_map_of_dom(front);
        let key = slots.last().key@;
        if has_key(front, key) {
            let i = choose|i: int| 0 <= i < front.len() && #[trigger] front[i].key@ == key;
            assert(slots[i].key@ == slots[slots.len() - 1].key@);
        }
        assert(!map_of(front).dom().contains(key));
        assert(map_of(slots).dom() =~= map_of(front).dom().insert(key));
    }
}

proof fn lemma_map_of_update(slots: Seq<Slot>, i: int, slot: Slot)
    requires
        distinct_keys(slots),
        0 <= i < slots.len(),
        slot.key@ == slots[i].key@,
    ensures
        distinct_keys(slots.update(i, slot)),
        map_of(slots.update(i, slot)) == map_of(slots).insert(slot.key@, slot.item@),
    decreases slots.len(),
{
    let after = slots.update(i, slot);
    assert(distinct_keys(after)) by {
        assert forall|a: int, b: int|
            0 <= a < after.len() && 0 <= b < after.len() && a != b implies #[trigger] after[a].key@
            != #[trigger] after[b].key@ by {
            assert(after[a].key@ == slots[a].key@);
            assert(after[b].key@ == slots[b].key@);
        }
    }
    let front = slots.drop_last();
    if i == slots.len() - 1 {
        assert(after.drop_last() =~= front);
        assert(map_of(after) =~= map_of(slots).insert(slot.key@, slot.item@));
    } else {
        lemma_distinct_front(slots);
        lemma_map_of_update(front, i, slot);
        assert(after.drop_last() =~= front.update(i, slot));
        assert(after.last() == slots.last());
        assert(slots[i].key@ != slots[slots.len() - 1].key@);
        assert(map_of(after) =~= map_of(slots).insert(slot.key@, slot.item@));
    }
}

/// The keyspace.
pub struct Keyspace {
    slots: Vec<Slot>,
}

impl View for Keyspace {
    type V = Map<Seq<u8>, Entry>;

    closed spec fn view(&self) -> Map<Seq<u8>, Entry> {
        map_of(self.slots@)
    }
}

impl Keyspace {
    #[verifier::type_invariant]
    spec fn distinct(&self) -> bool {
        distinct_keys(self.slots@)
    }

    /// An empty keyspace.
    pub fn new() -> (r: Keyspace)
        ensures
            r@ == Map::<Seq<u8>, Entry>::empty(),
    {
        Keyspace { slots: Vec::new() }
    }

    /// Where `key` is held, if it is.
    fn position(&self, key: &[u8]) -> (r: Option<usize>)
        ensures
            match r {
                Some(i) => i < self.slots@.len() && self.slots@[i as int].key@ == key@,
                None => !has_key(self.slots@, key@),
            },
    {
        let mut i: usize = 0;
        while i < self.slots.len()
            invariant
                i <= self.slots@.len(),
                forall|j: int| 0 <= j < i ==> #[trigger] self.slots@[j].key@ != key@,
            decreases self.slots@.len() - i,
        {
            if bytes_eq(self.slots[i].key.as_slice(), key) {
                return Some(i);
            }
            i = i + 1;
        }
        None
    }

    /// Stores `value` under `key` as of time `now`, in place of what was there.
    pub fn set(&mut self, key: Vec<u8>, value: Vec<u8>, expire: Option<u64>, now: u64)
        ensures
            final(self)@ == old(self)@.insert(
                key@,
                Entry { value: value@, expire: expire, timestamp: now },
            ),
    {
        proof {
            use_type_invariant(&*self);
        }
        let found = self.position(key.as_slice());
        let slot = Slot { key, item: Value { value, expire, timestamp: now } };
        // The slots are taken out while they change, so that at no moment they
        // stand in `self` other than with distinct keys.
        let mut slots: Vec<Slot> = Vec::new();
        core::mem::swap(&mut self.slots, &mut slots);
        match found {
            Some(i) => {
                proof {
                    lemma_map_of_update(slots@, i as int, slot);
                }
                slots[i] = slot;
            },
            None => {
                proof {
                    let after = slots@.push(slot);
                    assert(after.drop_last() =~= slots@);
                    lemma_distinct_push(slots@, slot);
                }
                slots.push(slot);
            },
        }
        core::mem::swap(&mut self.slots, &mut slots);
    }

    /// What a read of `key` at time `now` observes: the value stored under it,
    /// unless its time to live has passed.
    pub fn get(&self, key: &[u8], now: u64) -> (r: Option<Vec<u8>>)
        ensures
            match spec_lookup(self@, key@, now) {
                Some(value) => r matches Some(found) && found@ == value,
                None => r is None,
            },
    {
        proof {
            use_type_invariant(self);
            lemma_map_of_dom(self.slots@);
        }
        match self.position(key) {
            Some(i) => {
                proof {
                    lemma_map_of_index(self.slots@, i as int);
                }
                let item = &self.slots[i].item;
                let live = match item.expire {
                    None => true,
                    Some(ttl) => now < item.timestamp || now - item.timestamp < ttl,
                };
                if live {
                    Some(copy_bytes(item.value.as_slice()))
                } else {
                    None
                }
            },
            None => None,
        }
    }

    /// The number of keys held, expired ones included.
    pub fn len(&self) -> (n: usize)
        ensures
            self@.dom().finite(),
            n == self@.dom().len(),
    {
        proof {
            use_type_invariant(self);
            lemma_map_of_len(self.slots@);
        }
        self.slots.len()
    }
}

/// What a keyspace becomes when the entries `writes` are stored one after
/// the other, each under its key.
pub open spec fn spec_insert_all(m: Map<Seq<u8>, Entry>, writes: Seq<(Seq<u8>, Entry)>) -> Map<
    Seq<u8>,
    Entry,
>
    decreases writes.len(),
{
    if writes.len() == 0 {
        m
    } else {
        spec_insert_all(m, writes.drop_last()).insert(writes.last().0, writes.last().1)
    }
}

/// Writes under other keys leave what is read under `key` as it was.
pub proof fn lemma_other_writes_keep(
    m: Map<Seq<u8>, Entry>,
    key: Seq<u8>,
    writes: Seq<(Seq<u8>, Entry)>,
    now: u64,
)
    requires
        forall|i: int| 0 <= i < writes.len() ==> (#[trigger] writes[i]).0 != key,
    ensures
        spec_lookup(spec_insert_all(m, writes), key, now) == spec_lookup(m, key, now),
    decreases writes.len(),
{
    if writes.len() > 0 {
        let front = writes.drop_last();
        assert forall|i: int| 0 <= i < front.len() implies (#[trigger] front[i]).0 != key by {
            assert(front[i] == writes[i]);
        }
        lemma_other_writes_keep(m, key, front, now);
        assert(writes[writes.len() - 1].0 != key);
    }
}

/// A value is read back as long as it is live and not written over: after
/// storing `value` under `key` at time `t`, and after any writes under other
/// keys, a read of `key` at a time `now` at which the entry is live observes
/// `value`.
pub proof fn lemma_get_after_set(
    m: Map<Seq<u8>, Entry>,
    key: Seq<u8>,
    value: Seq<u8>,
    expire: Option<u64>,
    t: u64,
    writes: Seq<(Seq<u8>, Entry)>,
    now: u64,
)
    requires
        forall|i: int| 0 <= i < writes.len() ==> (#[trigger] writes[i]).0 != key,
        expire matches Some(ttl) ==> now - t < ttl,
    ensures
        spec_lookup(
            spec_insert_all(m.insert(key, Entry { value, expire, timestamp: t }), writes),
            key,
            now,
        ) == Some(value),
{
    lemma_other_writes_keep(m.insert(key, Entry { value, expire, timestamp: t }), key, writes, now);
}

/// A value is gone once its time to live has passed: after storing under
/// `key` at time `t` with time to live `ttl`, and after any writes under other
/// keys, a read of `key` at any time from `t + ttl` on observes nothing.
pub proof fn lemma_get_after_expiry(
    m: Map<Seq<u8>, Entry>,
    key: Seq<u8>,
    value: Seq<u8>,
    ttl: u64,
    t: u64,
    writes: Seq<(Seq<u8>, Entry)>,
    now: u64,
)
    requires
        forall|i: int| 0 <= i < writes.len() ==> (#[trigger] writes[i]).0 != key,
        now >= t + ttl,
    ensures
        spec_lookup(
            spec_insert_all(
                m.insert(key, Entry { value, expire: Some(ttl), timestamp: t }),
                writes,
            ),
            key,
            now,
        ) is None,
{
    lemma_other_writes_keep(
        m.insert(key, Entry { value, expire: Some(ttl), timestamp: t }),
        key,
        writes,
        now,
    );
}

} // verus!
