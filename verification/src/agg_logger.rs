//! Counts of events that repeat too often to be logged one by one. An event has a
//! key; the counts are taken out every few seconds.

use std::collections::hash_map::DefaultHasher;
use std::hash::{Hash, Hasher};
use vstd::prelude::*;
use vstd::std_specs::hash::DefaultHasherAdditionalSpecFns;

use crate::room::index::{
    keyed_at, keys_get, keys_insert, keys_len, keys_new, keys_of, keys_remove, Place,
};
use crate::signaling::message::text_of;
use crate::text::{owned, text_eq};

verus! {

/// How many events are counted at most at a time.
pub const MAX_KEYS: usize = 1024;

// ---------------------------------------------------------------------------
// Keys
// ---------------------------------------------------------------------------

/// What `str::hash` writes to a hasher for a text.
pub uninterp spec fn str_hash_writes(s: Seq<char>) -> Seq<Seq<u8>>;

/// `str::hash` on a `DefaultHasher`: feeds a text to the hasher. What is written
/// depends on the text alone.
#[verifier::external_body]
fn hasher_feed(h: &mut DefaultHasher, s: &str)
    ensures
        final(h)@ == old(h)@ + str_hash_writes(s@),
{
    s.hash(h)
}

/// What is written to a hasher for the first `n` texts of a list.
pub open spec fn all_writes(parts: Seq<&str>, n: int) -> Seq<Seq<u8>>
    decreases n,
{
    if n <= 0 {
        Seq::empty()
    } else {
        all_writes(parts, n - 1) + str_hash_writes(parts[n - 1]@)
    }
}

/// The key of an event: the hash of what describes it.
pub fn agg_key(parts: &[&str]) -> (r: u64)
    ensures
        r == DefaultHasher::spec_finish(all_writes(parts@, parts@.len() as int)),
{
    let mut h = DefaultHasher::new();
    let mut i: usize = 0;
    while i < parts.len()
        invariant
            i <= parts@.len(),
            h@ == all_writes(parts@, i as int),
        decreases parts@.len() - i,
    {
        hasher_feed(&mut h, parts[i]);
        i += 1;
    }
    h.finish()
}

// ---------------------------------------------------------------------------
// Counts
// ---------------------------------------------------------------------------

#[derive(Debug)]
pub struct AggEntry {
    pub key: u64,
    pub count: u64,
    /// When the event first occurred, in nanoseconds since the start.
    pub first_ns: u64,
    /// When the event last occurred.
    pub last_ns: u64,
    pub label: String,
    /// The room that the event belongs to, if it does to one.
    pub room_id: Option<String>,
}

/// What an entry says.
pub struct Tally {
    pub count: u64,
    pub first_ns: u64,
    pub last_ns: u64,
    pub label: Seq<char>,
    pub room_id: Option<Seq<char>>,
}

pub open spec fn tally(e: AggEntry) -> Tally {
    Tally {
        count: e.count,
        first_ns: e.first_ns,
        last_ns: e.last_ns,
        label: e.label@,
        room_id: text_of(e.room_id),
    }
}

/// An event that occurred.
#[derive(Debug)]
pub struct AggRecord {
    pub key: u64,
    pub label: String,
    pub room_id: Option<String>,
    pub count: u64,
    /// From the first time to the last; 0 for a single time.
    pub delta_ms: u64,
}

/// What a record says.
pub struct Occurrence {
    pub key: u64,
    pub label: Seq<char>,
    pub room_id: Option<Seq<char>>,
    pub count: u64,
    pub delta_ms: u64,
}

impl View for AggRecord {
    type V = Occurrence;

    open spec fn view(&self) -> Occurrence {
        Occurrence {
            key: self.key,
            label: self.label@,
            room_id: text_of(self.room_id),
            count: self.count,
            delta_ms: self.delta_ms,
        }
    }
}

pub struct AggLogger {
    /// Places by key.
    pub keys: dashmap::DashMap<u64, Place>,
    pub slots: Vec<Option<AggEntry>>,
}

/// Whether there is an entry at a place.
pub open spec fn counted_at(slots: Seq<Option<AggEntry>>, i: int) -> bool {
    0 <= i < slots.len() && slots[i] is Some
}

impl AggLogger {
    /// Keys lead to their entries, and every entry is found.
    pub open spec fn wf(&self) -> bool {
        let m = keys_of(self.keys);
        &&& m.dom().finite()
        &&& forall|k: u64| #[trigger]
            m.dom().contains(k) ==> counted_at(self.slots@, m[k].0 as int)
                && self.slots@[m[k].0 as int]->0.key == k
        &&& forall|i: int| #[trigger]
            counted_at(self.slots@, i) ==> m.dom().contains(self.slots@[i]->0.key)
                && m[self.slots@[i]->0.key].0 == i
    }

    /// The count of an event.
    pub open spec fn entry(&self, key: u64) -> Option<Tally> {
        match keyed_at(keys_of(self.keys), key) {
            Some(p) => Some(tally(self.slots@[p.0 as int]->0)),
            None => None,
        }
    }

    /// How many events are counted.
    pub open spec fn events(&self) -> nat {
        keys_of(self.keys).dom().len()
    }

    pub fn new() -> (r: Self)
        ensures
            r.wf(),
            r.events() == 0,
            forall|k: u64| #[trigger] r.entry(k) is None,
    {
        AggLogger { keys: keys_new(), slots: Vec::new() }
    }

    fn place(&self, key: u64) -> (r: Option<usize>)
        requires
            self.wf(),
        ensures
            match r {
                Some(i) => keys_of(self.keys).dom().contains(key) && keys_of(self.keys)[key].0 == i
                    && counted_at(self.slots@, i as int) && self.slots@[i as int]->0.key == key,
                None => keyed_at(keys_of(self.keys), key) is None,
            },
    {
        match keys_get(&self.keys, key) {
            Some(p) => {
                assert(keys_of(self.keys).dom().contains(key));
                Some(p.0)
            },
            None => None,
        }
    }

    fn add(&mut self, e: AggEntry)
        requires
            old(self).wf(),
            old(self).entry(e.key) is None,
        ensures
            final(self).wf(),
            final(self).events() == old(self).events() + 1,
            final(self).entry(e.key) == Some(tally(e)),
            forall|k: u64| k != e.key ==> #[trigger] final(self).entry(k) == old(self).entry(k),
    {
        let i: usize = self.slots.len();
        let key: u64 = e.key;
        let ghost before = *self;
        self.slots.push(Some(e));
        keys_insert(&mut self.keys, key, (i, false));
        proof {
            let m = keys_of(self.keys);
            assert forall|k: u64| #[trigger] m.dom().contains(k) implies counted_at(
                self.slots@,
                m[k].0 as int,
            ) && self.slots@[m[k].0 as int]->0.key == k by {
                if k != key {
                    assert(keys_of(before.keys).dom().contains(k));
                    assert(counted_at(before.slots@, m[k].0 as int));
                }
            }
            assert forall|j: int| #[trigger] counted_at(self.slots@, j) implies m.dom().contains(
                self.slots@[j]->0.key,
            ) && m[self.slots@[j]->0.key].0 == j by {
                if j < i {
                    assert(counted_at(before.slots@, j));
                }
            }
            assert forall|k: u64| k != key implies #[trigger] self.entry(k) == before.entry(k) by {
                if keys_of(before.keys).dom().contains(k) {
                    assert(counted_at(before.slots@, keys_of(before.keys)[k].0 as int));
                }
            }
        }
    }
}

/// A count with one occurrence more.
pub open spec fn once_more(t: Tally, now_ns: u64) -> Tally {
    Tally { count: t.count.wrapping_add(1), last_ns: now_ns, ..t }
}

/// The event of a key occurred. One that is not counted yet is ignored.
pub fn inc(agg: &mut AggLogger, key: u64, now_ns: u64)
    requires
        old(agg).wf(),
    ensures
        final(agg).wf(),
        final(agg).events() == old(agg).events(),
        final(agg).entry(key) == (match old(agg).entry(key) {
            Some(t) => Some(once_more(t, now_ns)),
            None => None,
        }),
        forall|k: u64| k != key ==> #[trigger] final(agg).entry(k) == old(agg).entry(k),
{
    let ghost before = *agg;
    if let Some(i) = agg.place(key) {
        match &mut agg.slots[i] {
            Some(e) => {
                e.count = e.count.wrapping_add(1);
                e.last_ns = now_ns;
            },
            None => {},
        }
        proof {
            let m = keys_of(agg.keys);
            assert forall|k: u64| #[trigger] m.dom().contains(k) implies counted_at(
                agg.slots@,
                m[k].0 as int,
            ) && agg.slots@[m[k].0 as int]->0.key == k by {
                assert(counted_at(before.slots@, m[k].0 as int));
            }
            assert forall|j: int| #[trigger] counted_at(agg.slots@, j) implies m.dom().contains(
                agg.slots@[j]->0.key,
            ) && m[agg.slots@[j]->0.key].0 == j by {
                assert(counted_at(before.slots@, j));
            }
            assert forall|k: u64| k != key implies #[trigger] agg.entry(k) == before.entry(k) by {
                if m.dom().contains(k) {
                    assert(counted_at(before.slots@, m[k].0 as int));
                }
            }
        }
    }
}

/// The event of a key occurred. One that is not counted yet is counted from now
/// on, unless too many are.
pub fn inc_with(agg: &mut AggLogger, key: u64, label: String, room_id: Option<&str>, now_ns: u64)
    requires
        old(agg).wf(),
    ensures
        final(agg).wf(),
        match old(agg).entry(key) {
            Some(t) => final(agg).entry(key) == Some(once_more(t, now_ns)) && final(agg).events()
                == old(agg).events(),
            None => if old(agg).events() >= MAX_KEYS {
                final(agg).entry(key) is None && final(agg).events() == old(agg).events()
            } else {
                final(agg).entry(key) == Some(
                    Tally {
                        count: 1,
                        first_ns: now_ns,
                        last_ns: now_ns,
                        label: label@,
                        room_id: match room_id {
                            Some(s) => Some(s@),
                            None => None,
                        },
                    },
                ) && final(agg).events() == old(agg).events() + 1
            },
        },
        forall|k: u64| k != key ==> #[trigger] final(agg).entry(k) == old(agg).entry(k),
{
    if agg.place(key).is_some() {
        inc(agg, key, now_ns);
        return;
    }
    if keys_len(&agg.keys) >= MAX_KEYS {
        return;
    }
    let room: Option<String> = match room_id {
        Some(s) => Some(owned(s)),
        None => None,
    };
    agg.add(AggEntry { key, count: 1, first_ns: now_ns, last_ns: now_ns, label, room_id: room });
}

/// The event of a key is counted from now on, unless it is already or too many
/// are.
pub fn register(agg: &mut AggLogger, key: u64, label: &str, room_id: Option<&str>, now_ns: u64)
    requires
        old(agg).wf(),
    ensures
        final(agg).wf(),
        if old(agg).events() >= MAX_KEYS || old(agg).entry(key) is Some {
            final(agg).entry(key) == old(agg).entry(key) && final(agg).events() == old(agg).events()
        } else {
            final(agg).entry(key) == Some(
                Tally {
                    count: 0,
                    first_ns: now_ns,
                    last_ns: 0,
                    label: label@,
                    room_id: match room_id {
                        Some(s) => Some(s@),
                        None => None,
                    },
                },
            ) && final(agg).events() == old(agg).events() + 1
        },
        forall|k: u64| k != key ==> #[trigger] final(agg).entry(k) == old(agg).entry(k),
{
    if keys_len(&agg.keys) >= MAX_KEYS || agg.place(key).is_some() {
        return;
    }
    let room: Option<String> = match room_id {
        Some(s) => Some(owned(s)),
        None => None,
    };
    agg.add(
        AggEntry { key, count: 0, first_ns: now_ns, last_ns: 0, label: owned(label), room_id: room },
    );
}

/// Whether an event belongs to a room.
pub open spec fn belongs_to(t: Tally, room: Seq<char>) -> bool {
    t.room_id == Some(room)
}

/// The events of a room are not counted any more.
pub fn clear_room(agg: &mut AggLogger, room_id: &str)
    requires
        old(agg).wf(),
    ensures
        final(agg).wf(),
        forall|k: u64| #[trigger]
            final(agg).entry(k) == (match old(agg).entry(k) {
                Some(t) => if belongs_to(t, room_id@) {
                    None
                } else {
                    Some(t)
                },
                None => None,
            }),
{
    let ghost start = *agg;
    let n: usize = agg.slots.len();
    let mut i: usize = 0;
    while i < n
        invariant
            i <= n == agg.slots@.len() == start.slots@.len(),
            start.wf(),
            agg.wf(),
            forall|j: int| i <= j < n ==> agg.slots@[j] == start.slots@[j],
            forall|k: u64| #[trigger]
                agg.entry(k) == (match start.entry(k) {
                    Some(t) => if keys_of(start.keys)[k].0 < i && belongs_to(t, room_id@) {
                        None
                    } else {
                        Some(t)
                    },
                    None => None,
                }),
        decreases n - i,
    {
        let ghost before = *agg;
        let mut gone: Option<u64> = None;
        if let Some(e) = &agg.slots[i] {
            if let Some(r) = &e.room_id {
                if text_eq(r.as_str(), room_id) {
                    gone = Some(e.key);
                }
            }
        }
        if let Some(key) = gone {
            assert(counted_at(before.slots@, i as int));
            assert(counted_at(start.slots@, i as int));
            agg.slots.set(i, None);
            keys_remove(&mut agg.keys, key);
            proof {
                let m = keys_of(agg.keys);
                let b = keys_of(before.keys);
                assert forall|k: u64| #[trigger] m.dom().contains(k) implies counted_at(
                    agg.slots@,
                    m[k].0 as int,
                ) && agg.slots@[m[k].0 as int]->0.key == k by {
                    assert(b.dom().contains(k));
                    assert(counted_at(before.slots@, b[k].0 as int));
                }
                assert forall|j: int| #[trigger] counted_at(agg.slots@, j) implies m.dom().contains(
                    agg.slots@[j]->0.key,
                ) && m[agg.slots@[j]->0.key].0 == j by {
                    assert(counted_at(before.slots@, j));
                }
            }
        }
        proof {
            assert forall|k: u64| #[trigger] agg.entry(k) == (match start.entry(k) {
                Some(t) => if keys_of(start.keys)[k].0 < i + 1 && belongs_to(t, room_id@) {
                    None
                } else {
                    Some(t)
                },
                None => None,
            }) by {
                assert(before.entry(k) == before.entry(k));
                if keys_of(start.keys).dom().contains(k) {
                    let at = keys_of(start.keys)[k].0 as int;
                    assert(counted_at(start.slots@, at));
                    if at == i {
                        assert(before.slots@[at] == start.slots@[at]);
                        assert(counted_at(before.slots@, at));
                    }
                }
                if keys_of(before.keys).dom().contains(k) {
                    assert(counted_at(before.slots@, keys_of(before.keys)[k].0 as int));
                }
            }
        }
        i += 1;
    }
    proof {
        assert forall|k: u64| #[trigger] agg.entry(k) == (match start.entry(k) {
            Some(t) => if belongs_to(t, room_id@) {
                None
            } else {
                Some(t)
            },
            None => None,
        }) by {
            if keys_of(start.keys).dom().contains(k) {
                assert(counted_at(start.slots@, keys_of(start.keys)[k].0 as int));
            }
        }
    }
}

/// The time from the first occurrence to the last.
pub open spec fn span_ms(t: Tally) -> u64 {
    if t.count <= 1 || t.last_ns < t.first_ns {
        0
    } else {
        ((t.last_ns - t.first_ns) / 1_000_000) as u64
    }
}

/// The events at the first `n` places that occurred.
pub open spec fn occurrences(slots: Seq<Option<AggEntry>>, n: int) -> Seq<Occurrence>
    decreases n,
{
    if n <= 0 {
        Seq::empty()
    } else if counted_at(slots, n - 1) && slots[n - 1]->0.count > 0 {
        let e = slots[n - 1]->0;
        occurrences(slots, n - 1).push(
            Occurrence {
                key: e.key,
                label: e.label@,
                room_id: text_of(e.room_id),
                count: e.count,
                delta_ms: span_ms(tally(e)),
            },
        )
    } else {
        occurrences(slots, n - 1)
    }
}

pub open spec fn records_of(v: Seq<AggRecord>) -> Seq<Occurrence> {
    v.map_values(|r: AggRecord| r@)
}

/// Takes all counts out: the events that occurred, in the order in which they
/// were first counted. Nothing is counted any more.
pub fn drain(agg: &mut AggLogger) -> (r: Vec<AggRecord>)
    requires
        old(agg).wf(),
    ensures
        final(agg).wf(),
        final(agg).events() == 0,
        forall|k: u64| #[trigger] final(agg).entry(k) is None,
        records_of(r@) == occurrences(old(agg).slots@, old(agg).slots@.len() as int),
{
    let mut out: Vec<AggRecord> = Vec::new();
    let mut i: usize = 0;
    assert(records_of(out@) =~= Seq::empty());
    while i < agg.slots.len()
        invariant
            *agg == *old(agg),
            i <= agg.slots@.len(),
            records_of(out@) == occurrences(agg.slots@, i as int),
        decreases agg.slots@.len() - i,
    {
        let ghost before = out@;
        if let Some(e) = &agg.slots[i] {
            if e.count > 0 {
                let delta_ms: u64 = if e.count <= 1 || e.last_ns < e.first_ns {
                    0
                } else {
                    (e.last_ns - e.first_ns) / 1_000_000
                };
                let room_id: Option<String> = match &e.room_id {
                    Some(s) => Some(s.clone()),
                    None => None,
                };
                let record = AggRecord {
                    key: e.key,
                    label: e.label.clone(),
                    room_id,
                    count: e.count,
                    delta_ms,
                };
                out.push(record);
                assert(records_of(out@) =~= records_of(before).push(record@));
            }
        }
        i += 1;
    }
    agg.slots = Vec::new();
    agg.keys = keys_new();
    out
}

/// Every event that is counted and occurred is among those that are taken out,
/// with its count.
pub proof fn law_nothing_is_lost(agg: AggLogger, key: u64)
    requires
        agg.wf(),
        agg.entry(key) matches Some(t) && t.count > 0,
    ensures
        exists|i: int|
            0 <= i < occurrences(agg.slots@, agg.slots@.len() as int).len() && (
            #[trigger] occurrences(agg.slots@, agg.slots@.len() as int)[i]).key == key && occurrences(
                agg.slots@,
                agg.slots@.len() as int,
            )[i].count == agg.entry(key)->0.count,
{
    let at = keys_of(agg.keys)[key].0 as int;
    assert(keys_of(agg.keys).dom().contains(key));
    assert(counted_at(agg.slots@, at));
    lemma_occurrence(agg.slots@, at, agg.slots@.len() as int);
}

proof fn lemma_occurrence(slots: Seq<Option<AggEntry>>, at: int, n: int)
    requires
        0 <= at < n <= slots.len(),
        counted_at(slots, at),
        slots[at]->0.count > 0,
    ensures
        exists|i: int|
            0 <= i < occurrences(slots, n).len() && (#[trigger] occurrences(slots, n)[i]).key
                == slots[at]->0.key && occurrences(slots, n)[i].count == slots[at]->0.count,
    decreases n,
{
    let all = occurrences(slots, n);
    let rest = occurrences(slots, n - 1);
    if at == n - 1 {
        let i = rest.len() as int;
        assert(all[i].key == slots[at]->0.key);
    } else {
        lemma_occurrence(slots, at, n - 1);
        let i = choose|i: int|
            0 <= i < rest.len() && (#[trigger] rest[i]).key == slots[at]->0.key && rest[i].count
                == slots[at]->0.count;
        assert(all[i] == rest[i]);
    }
}

} // verus!
