//! The event cache: the most recent events by id, in an LRU cache of the
//! `lru` crate, so that an event seen from several relays is sent once.

use vstd::prelude::*;
use lru::LruCache;
use crate::event::{SignedEvent, EventFilter, EventView, FilterView, filter_accepts, cacheable_kind,
    KIND_TEXT_NOTE, KIND_LONG_FORM_TEXT_NOTE, KIND_METADATA};

verus! {

#[verifier::external_type_specification]
#[verifier::external_body]
#[verifier::reject_recursive_types(K)]
#[verifier::reject_recursive_types(V)]
#[verifier::reject_recursive_types(S)]
pub struct ExLruCache<K, V, S>(LruCache<K, V, S>);

/// An entry of the cache: the event id (its key) and the event.
pub type Entry = (Seq<u8>, EventView);

/// What an LRU cache of events holds, most recently used first.
pub uninterp spec fn lru_entries(cache: LruCache<[u8; 32], SignedEvent>) -> Seq<Entry>;

/// The capacity an LRU cache of events was made with.
pub uninterp spec fn lru_capacity(cache: LruCache<[u8; 32], SignedEvent>) -> nat;

/// `LruCache::new`: an empty cache holding at most `cap` entries.
#[verifier::external_body]
fn lru_new(cap: usize) -> (c: LruCache<[u8; 32], SignedEvent>)
    requires
        cap > 0,
    ensures
        lru_entries(c) == Seq::<Entry>::empty(),
        lru_capacity(c) == cap,
{
    LruCache::new(std::num::NonZeroUsize::new(cap).unwrap())
}

/// `LruCache::get` followed by `cloned`: when an entry has the key, its event
/// is returned and the entry moves to the front; otherwise nothing changes.
#[verifier::external_body]
fn lru_get(c: &mut LruCache<[u8; 32], SignedEvent>, key: &[u8; 32]) -> (r: Option<SignedEvent>)
    ensures
        lru_capacity(*final(c)) == lru_capacity(*old(c)),
        r matches Some(e) ==> exists|i: int|
            0 <= i < lru_entries(*old(c)).len() && (#[trigger] lru_entries(*old(c))[i]).0 == key@
                && e@ == lru_entries(*old(c))[i].1 && lru_entries(*final(c)) == seq![
                lru_entries(*old(c))[i]] + lru_entries(*old(c)).remove(i),
        r is None ==> (forall|i: int|
            0 <= i < lru_entries(*old(c)).len() ==> (#[trigger] lru_entries(*old(c))[i]).0 != key@)
            && lru_entries(*final(c)) == lru_entries(*old(c)),
{
    c.get(key).cloned()
}

/// `LruCache::put`: an entry with the key is replaced and moves to the front;
/// otherwise the new entry goes to the front, and when the cache is full the
/// least recently used entry (the last) is dropped.
#[verifier::external_body]
fn lru_put(c: &mut LruCache<[u8; 32], SignedEvent>, key: [u8; 32], value: SignedEvent)
    ensures
        lru_capacity(*final(c)) == lru_capacity(*old(c)),
        (exists|i: int| 0 <= i < lru_entries(*old(c)).len()
            && (#[trigger] lru_entries(*old(c))[i]).0 == key@) ==> exists|i: int|
            0 <= i < lru_entries(*old(c)).len() && (#[trigger] lru_entries(*old(c))[i]).0 == key@
                && lru_entries(*final(c)) == seq![(key@, value@)] + lru_entries(*old(c)).remove(i),
        (forall|i: int| 0 <= i < lru_entries(*old(c)).len()
            ==> (#[trigger] lru_entries(*old(c))[i]).0 != key@) ==> lru_entries(*final(c)) == seq![
            (key@, value@)] + (if lru_entries(*old(c)).len() == lru_capacity(*old(c)) {
                lru_entries(*old(c)).drop_last()
            } else {
                lru_entries(*old(c))
            }),
{
    let _ = c.put(key, value);
}

/// `LruCache::contains`: whether an entry has the key; the order of the
/// entries is left as it was.
#[verifier::external_body]
fn lru_contains(c: &LruCache<[u8; 32], SignedEvent>, key: &[u8; 32]) -> (r: bool)
    ensures
        r == (exists|i: int| 0 <= i < lru_entries(*c).len() && (#[trigger] lru_entries(*c)[i]).0 == key@),
{
    c.contains(key)
}

/// `LruCache::iter`: the events, most recently used first, each cloned.
#[verifier::external_body]
fn lru_values(c: &LruCache<[u8; 32], SignedEvent>) -> (r: Vec<SignedEvent>)
    ensures
        r@.len() == lru_entries(*c).len(),
        forall|i: int| 0 <= i < r@.len() ==> (#[trigger] r@[i])@ == lru_entries(*c)[i].1,
{
    c.iter().map(|(_, e)| e.clone()).collect()
}

// ------------------------------------------------------------------
// The model of the cache

/// Whether an entry has the key.
pub open spec fn has_key(es: Seq<Entry>, k: Seq<u8>) -> bool {
    exists|i: int| 0 <= i < es.len() && (#[trigger] es[i]).0 == k
}

/// The position of the entry with the key (meaningful when there is one).
pub open spec fn key_index(es: Seq<Entry>, k: Seq<u8>) -> int {
    choose|i: int| 0 <= i < es.len() && (#[trigger] es[i]).0 == k
}

/// No two entries share a key.
pub open spec fn keys_unique(es: Seq<Entry>) -> bool {
    forall|i: int, j: int| 0 <= i < es.len() && 0 <= j < es.len() && i != j ==> (#[trigger] es[i]).0
        != (#[trigger] es[j]).0
}

/// The entries after a lookup of `k`: a found entry moves to the front.
pub open spec fn entries_after_get(es: Seq<Entry>, k: Seq<u8>) -> Seq<Entry> {
    if has_key(es, k) {
        let i = key_index(es, k);
        seq![es[i]] + es.remove(i)
    } else {
        es
    }
}

/// The event a lookup of `k` returns.
pub open spec fn get_result(es: Seq<Entry>, k: Seq<u8>) -> Option<EventView> {
    if has_key(es, k) { Some(es[key_index(es, k)].1) } else { None }
}

/// The entries after storing `v` under `k` in a cache of capacity `cap`.
pub open spec fn entries_after_put(es: Seq<Entry>, cap: nat, k: Seq<u8>, v: EventView) -> Seq<Entry> {
    if has_key(es, k) {
        seq![(k, v)] + es.remove(key_index(es, k))
    } else if es.len() == cap {
        seq![(k, v)] + es.drop_last()
    } else {
        seq![(k, v)] + es
    }
}

/// The events of a query: those that pass the filter, most recently used first,
/// cut to the filter's limit.
pub open spec fn query_result(es: Seq<Entry>, f: FilterView) -> Seq<EventView> {
    let matching = es.map_values(|e: Entry| e.1).filter(|e: EventView| filter_accepts(f, e));
    match f.limit {
        Some(l) => if l < matching.len() { matching.take(l as int) } else { matching },
        None => matching,
    }
}

/// No two events of the sequence share an id.
pub open spec fn ids_distinct(s: Seq<EventView>) -> bool {
    forall|i: int, j: int| 0 <= i < s.len() && 0 <= j < s.len() && i != j ==> (#[trigger] s[i]).id
        != (#[trigger] s[j]).id
}

/// Whether the cache holds `x` in an entry more recently used than one holding `y`.
pub open spec fn comes_before(es: Seq<Entry>, x: EventView, y: EventView) -> bool {
    exists|i: int, j: int| 0 <= i < j < es.len() && (#[trigger] es[i]).1 == x && (#[trigger] es[j]).1 == y
}

/// An operation on the cache: storing an event under its id, or looking an id up.
pub enum CacheOp {
    Store(EventView),
    Lookup(Seq<u8>),
}

/// The id an operation stores an event under, if it stores one.
pub open spec fn stored_key(op: CacheOp) -> Option<Seq<u8>> {
    match op {
        CacheOp::Store(v) => Some(v.id),
        CacheOp::Lookup(_) => None,
    }
}

/// Whether some operation of the run stores an event under the id.
pub open spec fn stores_id(ops: Seq<CacheOp>, k: Seq<u8>) -> bool {
    exists|i: int| 0 <= i < ops.len() && stored_key(#[trigger] ops[i]) == Some(k)
}

/// The entries after a run of operations, first to last, on a cache of capacity `cap`.
pub open spec fn entries_after_ops(es: Seq<Entry>, cap: nat, ops: Seq<CacheOp>) -> Seq<Entry>
    decreases ops.len(),
{
    if ops.len() == 0 {
        es
    } else {
        let prev = entries_after_ops(es, cap, ops.drop_last());
        match ops.last() {
            CacheOp::Store(v) => entries_after_put(prev, cap, v.id, v),
            CacheOp::Lookup(k) => entries_after_get(prev, k),
        }
    }
}

/// The cache's invariant: within capacity, one entry per id, each entry keyed
/// by its event's id, and every event well formed.
pub open spec fn entries_wf(es: Seq<Entry>, cap: nat) -> bool {
    &&& cap > 0
    &&& es.len() <= cap
    &&& keys_unique(es)
    &&& forall|i: int| 0 <= i < es.len() ==> (#[trigger] es[i]).0 == es[i].1.id && es[i].1.wf()
}

/// Recently seen events by id.
pub struct EventCache {
    cache: LruCache<[u8; 32], SignedEvent>,
}

impl EventCache {
    /// The cached entries, most recently used first.
    pub closed spec fn entries(&self) -> Seq<Entry> {
        lru_entries(self.cache)
    }

    /// The number of events the cache holds at most.
    pub closed spec fn capacity(&self) -> nat {
        lru_capacity(self.cache)
    }

    pub open spec fn wf(&self) -> bool {
        entries_wf(self.entries(), self.capacity())
    }

    /// An empty cache of the given capacity.
    pub fn new(capacity: usize) -> (r: EventCache)
        requires
            capacity > 0,
        ensures
            r.wf(),
            r.entries() == Seq::<Entry>::empty(),
            r.capacity() == capacity,
    {
        EventCache { cache: lru_new(capacity) }
    }

    /// The cached event with this id, if any; a hit makes it the most recently used.
    pub fn get(&mut self, event_id: &[u8; 32]) -> (r: Option<SignedEvent>)
        requires
            old(self).wf(),
        ensures
            final(self).wf(),
            final(self).capacity() == old(self).capacity(),
            final(self).entries() == entries_after_get(old(self).entries(), event_id@),
            r is Some <==> has_key(old(self).entries(), event_id@),
            r matches Some(e) ==> Some(e@) == get_result(old(self).entries(), event_id@),
    {
        let ghost es = self.entries();
        let r = lru_get(&mut self.cache, event_id);
        proof {
            let es2 = self.entries();
            if r is Some {
                let e = r->0;
                let i = choose|i: int| 0 <= i < es.len() && (#[trigger] es[i]).0 == event_id@
                    && e@ == es[i].1 && es2 == seq![es[i]] + es.remove(i);
                // keys are unique, so the entry found is the one `key_index` picks
                assert(has_key(es, event_id@));
                assert(i == key_index(es, event_id@));
                lemma_move_front_wf(es, self.capacity(), i);
            } else {
                assert(!has_key(es, event_id@));
            }
        }
        r
    }

    /// Whether an event with this id is cached; unlike a lookup, it leaves the
    /// order of the entries alone.
    pub fn contains(&self, event_id: &[u8; 32]) -> (r: bool)
        ensures
            r == has_key(self.entries(), event_id@),
    {
        lru_contains(&self.cache, event_id)
    }

    /// Stores an event under its id.
    pub fn set(&mut self, event: SignedEvent)
        requires
            old(self).wf(),
            event.wf(),
        ensures
            final(self).wf(),
            final(self).capacity() == old(self).capacity(),
            final(self).entries() == entries_after_put(
                old(self).entries(), old(self).capacity(), event.id@, event@),
    {
        let ghost es = self.entries();
        let ghost v = event@;
        let key = event.id;
        lru_put(&mut self.cache, key, event);
        proof {
            lemma_put_wf(es, self.capacity(), v);
            if has_key(es, v.id) {
                let i = choose|i: int| 0 <= i < es.len() && (#[trigger] es[i]).0 == v.id
                    && self.entries() == seq![(v.id, v)] + es.remove(i);
                assert(i == key_index(es, v.id));
            }
        }
    }

    /// The cached events that pass the filter, most recently used first, at most
    /// the filter's limit of them.
    pub fn query(&self, filter: &EventFilter) -> (r: Vec<SignedEvent>)
        requires
            self.wf(),
            filter.wf(),
        ensures
            r@.map_values(|e: SignedEvent| e@) == query_result(self.entries(), filter@),
            forall|i: int| 0 <= i < r@.len() ==> (#[trigger] r@[i]).wf(),
    {
        let events = lru_values(&self.cache);
        let ghost es = self.entries();
        let ghost vals = es.map_values(|e: Entry| e.1);
        let ghost pred = |e: EventView| filter_accepts(filter@, e);
        let mut results: Vec<SignedEvent> = Vec::new();
        let n = events.len();
        let mut i: usize = 0;
        while i < n
            invariant
                n == events@.len(),
                n == es.len(),
                i <= n,
                vals == es.map_values(|e: Entry| e.1),
                forall|k: int| 0 <= k < n ==> (#[trigger] events@[k])@ == es[k].1,
                forall|k: int| 0 <= k < es.len() ==> (#[trigger] es[k]).0 == es[k].1.id && es[k].1.wf(),
                filter.wf(),
                pred == (|e: EventView| filter_accepts(filter@, e)),
                results@.map_values(|e: SignedEvent| e@) == vals.take(i as int).filter(pred),
                forall|k: int| 0 <= k < results@.len() ==> (#[trigger] results@[k]).wf(),
            decreases n - i,
        {
            assert(vals.take(i + 1).drop_last() == vals.take(i as int));
            reveal_with_fuel(Seq::filter, 1);
            if filter.match_event(&events[i]) {
                results.push(events[i].clone());
            }
            i = i + 1;
        }
        assert(vals.take(n as int) == vals);
        match filter.limit {
            Some(limit) => {
                results.truncate(limit);
            }
            None => {}
        }
        results
    }

    /// Whether events of this kind are kept: text notes, long-form text notes and metadata.
    pub fn is_cacheable_event(event: &SignedEvent) -> (r: bool)
        ensures
            r == cacheable_kind(event.kind),
            r <==> (event.kind == 0 || event.kind == 1 || event.kind == 30023),
    {
        event.kind == KIND_TEXT_NOTE || event.kind == KIND_LONG_FORM_TEXT_NOTE
            || event.kind == KIND_METADATA
    }
}

// ------------------------------------------------------------------
// Lemmas

proof fn lemma_move_front_wf(es: Seq<Entry>, cap: nat, i: int)
    requires
        entries_wf(es, cap),
        0 <= i < es.len(),
    ensures
        entries_wf(seq![es[i]] + es.remove(i), cap),
{
    let r = seq![es[i]] + es.remove(i);
    assert forall|a: int, b: int| 0 <= a < r.len() && 0 <= b < r.len() && a != b implies (#[trigger] r[a]).0
        != (#[trigger] r[b]).0 by {
        let ia = if a == 0 { i } else if a - 1 < i { a - 1 } else { a };
        let ib = if b == 0 { i } else if b - 1 < i { b - 1 } else { b };
        assert(r[a] == es[ia]);
        assert(r[b] == es[ib]);
    }
    assert forall|a: int| 0 <= a < r.len() implies (#[trigger] r[a]).0 == r[a].1.id && r[a].1.wf() by {
        let ia = if a == 0 { i } else if a - 1 < i { a - 1 } else { a };
        assert(r[a] == es[ia]);
    }
}

proof fn lemma_put_wf(es: Seq<Entry>, cap: nat, v: EventView)
    requires
        entries_wf(es, cap),
        v.wf(),
    ensures
        entries_wf(entries_after_put(es, cap, v.id, v), cap),
        entries_after_put(es, cap, v.id, v)[0] == (v.id, v),
{
    let k = v.id;
    let rest = if has_key(es, k) {
        es.remove(key_index(es, k))
    } else if es.len() == cap {
        es.drop_last()
    } else {
        es
    };
    let r = seq![(k, v)] + rest;
    assert(r == entries_after_put(es, cap, k, v));
    // every entry of `rest` is an entry of `es` other than one with key k, in order
    assert forall|a: int| 0 <= a < rest.len() implies exists|b: int| 0 <= b < es.len() && (#[trigger] rest[a])
        == es[b] && es[b].0 != k by {
        if has_key(es, k) {
            let j = key_index(es, k);
            if a < j {
                assert(rest[a] == es[a]);
                assert(es[a].0 != es[j].0);
            } else {
                assert(rest[a] == es[a + 1]);
                assert(es[a + 1].0 != es[j].0);
            }
        } else {
            assert(rest[a] == es[a]);
        }
    }
    assert forall|a: int, b: int| 0 <= a < rest.len() && 0 <= b < rest.len() && a != b implies (#[trigger] rest[a]).0
        != (#[trigger] rest[b]).0 by {
        if has_key(es, k) {
            let j = key_index(es, k);
            let ia = if a < j { a } else { a + 1 };
            let ib = if b < j { b } else { b + 1 };
            assert(rest[a] == es[ia]);
            assert(rest[b] == es[ib]);
        } else {
            assert(rest[a] == es[a]);
            assert(rest[b] == es[b]);
        }
    }
    assert forall|a: int, b: int| 0 <= a < r.len() && 0 <= b < r.len() && a != b implies (#[trigger] r[a]).0
        != (#[trigger] r[b]).0 by {
        if a > 0 && b > 0 {
            assert(r[a] == rest[a - 1]);
            assert(r[b] == rest[b - 1]);
        } else if a == 0 {
            assert(r[b] == rest[b - 1]);
        } else {
            assert(r[a] == rest[a - 1]);
        }
    }
    assert forall|a: int| 0 <= a < r.len() implies (#[trigger] r[a]).0 == r[a].1.id && r[a].1.wf() by {
        if a > 0 {
            assert(r[a] == rest[a - 1]);
        }
    }
}

// ------------------------------------------------------------------
// Laws

/// Storing keeps the cache well formed: within capacity, one entry per id.
pub proof fn law_put_keeps_wf(es: Seq<Entry>, cap: nat, v: EventView)
    requires
        entries_wf(es, cap),
        v.wf(),
    ensures
        entries_wf(entries_after_put(es, cap, v.id, v), cap),
        entries_after_put(es, cap, v.id, v)[0] == (v.id, v),
{
    lemma_put_wf(es, cap, v);
}

/// A lookup keeps which ids the cache holds and how many, and keeps the cache well formed.
pub proof fn law_get_keeps_contents(es: Seq<Entry>, cap: nat, k: Seq<u8>, k2: Seq<u8>)
    ensures
        entries_wf(es, cap) ==> entries_wf(entries_after_get(es, k), cap),
        entries_after_get(es, k).len() == es.len(),
        has_key(entries_after_get(es, k), k2) == has_key(es, k2),
{
    if has_key(es, k) {
        let i = key_index(es, k);
        if entries_wf(es, cap) {
            lemma_move_front_wf(es, cap, i);
        }
        let r = seq![es[i]] + es.remove(i);
        if has_key(es, k2) {
            let j = choose|j: int| 0 <= j < es.len() && (#[trigger] es[j]).0 == k2;
            let a = if j == i { 0 } else if j < i { j + 1 } else { j };
            assert(r[a] == es[j]);
        }
        if has_key(r, k2) {
            let a = choose|a: int| 0 <= a < r.len() && (#[trigger] r[a]).0 == k2;
            let j = if a == 0 { i } else if a - 1 < i { a - 1 } else { a };
            assert(r[a] == es[j]);
        }
    }
}

/// What is stored is found: right after an event is stored, looking up its id
/// gives the event back.
pub proof fn law_get_after_set(es: Seq<Entry>, cap: nat, v: EventView)
    requires
        entries_wf(es, cap),
        v.wf(),
    ensures
        has_key(entries_after_put(es, cap, v.id, v), v.id),
        get_result(entries_after_put(es, cap, v.id, v), v.id) == Some(v),
{
    lemma_put_wf(es, cap, v);
    let r = entries_after_put(es, cap, v.id, v);
    assert(r[0].0 == v.id);
    assert(has_key(r, v.id));
    let i = key_index(r, v.id);
    if i != 0 {
        assert(r[i].0 == r[0].0);
    }
}

/// An event stays cached while others are stored after it, as long as the
/// cache has room for two: the most recent entry is never the one evicted.
pub proof fn law_front_survives_put(es: Seq<Entry>, cap: nat, k: Seq<u8>, v: EventView)
    requires
        cap >= 2,
        es.len() > 0,
    ensures
        has_key(entries_after_put(es, cap, k, v), es[0].0),
{
    let r = entries_after_put(es, cap, k, v);
    let k0 = es[0].0;
    if k == k0 {
        assert(r[0].0 == k0);
    } else if has_key(es, k) {
        let j = key_index(es, k);
        assert(es[j].0 == k);
        assert(j != 0);
        assert(r[1] == es.remove(j)[0]);
    } else if es.len() == cap {
        assert(r[1] == es.drop_last()[0]);
    } else {
        assert(r[1] == es[0]);
    }
}

/// A query returns only cached events that pass the filter, most recently used
/// first, and never more than the filter's limit.
pub proof fn law_query_sound(es: Seq<Entry>, f: FilterView)
    ensures
        forall|i: int| 0 <= i < query_result(es, f).len() ==> filter_accepts(f, #[trigger] query_result(es, f)[i])
            && exists|j: int| 0 <= j < es.len() && es[j].1 == query_result(es, f)[i],
        f.limit matches Some(l) ==> query_result(es, f).len() <= l,
{
    let vals = es.map_values(|e: Entry| e.1);
    let pred = |e: EventView| filter_accepts(f, e);
    let matching = vals.filter(pred);
    assert forall|i: int| 0 <= i < query_result(es, f).len() implies filter_accepts(f, #[trigger] query_result(es, f)[i])
        && exists|j: int| 0 <= j < es.len() && es[j].1 == query_result(es, f)[i] by {
        let q = query_result(es, f);
        assert(q[i] == matching[i]);
        vals.lemma_filter_pred(pred, i);
        assert(pred(matching[i]));
        assert(matching.contains(q[i]));
        vals.lemma_filter_contains_rev(pred, q[i]);
        let j = choose|j: int| 0 <= j < vals.len() && vals[j] == q[i];
        assert(es[j].1 == vals[j]);
    }
}

/// Storing keeps the ids the cache held, except the one evicted to make room;
/// the stored id is held afterwards, and no id but it is added.
pub proof fn law_put_key_set(es: Seq<Entry>, cap: nat, k: Seq<u8>, v: EventView, k2: Seq<u8>)
    requires
        cap > 0,
    ensures
        has_key(entries_after_put(es, cap, k, v), k),
        has_key(entries_after_put(es, cap, k, v), k2) ==> k2 == k || has_key(es, k2),
        has_key(es, k) ==> (has_key(entries_after_put(es, cap, k, v), k2) == (k2 == k || has_key(es, k2))),
{
    let r = entries_after_put(es, cap, k, v);
    assert(r[0].0 == k);
    if has_key(r, k2) && k2 != k {
        let a = choose|a: int| 0 <= a < r.len() && (#[trigger] r[a]).0 == k2;
        assert(a > 0);
        if has_key(es, k) {
            let i = key_index(es, k);
            let b = if a - 1 < i { a - 1 } else { a };
            assert(r[a] == es[b]);
        } else if es.len() == cap {
            assert(r[a] == es.drop_last()[a - 1]);
            assert(es.drop_last()[a - 1] == es[a - 1]);
        } else {
            assert(r[a] == es[a - 1]);
        }
    }
    if has_key(es, k) && has_key(es, k2) && k2 != k {
        let i = key_index(es, k);
        let j = choose|j: int| 0 <= j < es.len() && (#[trigger] es[j]).0 == k2;
        assert(j != i);
        let a = if j < i { j + 1 } else { j };
        assert(r[a] == es[j]);
    }
}

/// What was never stored is not found: after any run of stores and lookups on
/// an empty cache, an id that no store used is not held, and looking it up
/// gives nothing and changes nothing.
pub proof fn law_unstored_id_not_found(cap: nat, ops: Seq<CacheOp>, k: Seq<u8>)
    requires
        cap > 0,
        !stores_id(ops, k),
    ensures
        !has_key(entries_after_ops(Seq::<Entry>::empty(), cap, ops), k),
        get_result(entries_after_ops(Seq::<Entry>::empty(), cap, ops), k) is None,
        entries_after_get(entries_after_ops(Seq::<Entry>::empty(), cap, ops), k) == entries_after_ops(
            Seq::<Entry>::empty(),
            cap,
            ops,
        ),
    decreases ops.len(),
{
    if ops.len() > 0 {
        let prefix = ops.drop_last();
        assert(!stores_id(prefix, k)) by {
            if stores_id(prefix, k) {
                let i = choose|i: int| 0 <= i < prefix.len() && stored_key(#[trigger] prefix[i]) == Some(k);
                assert(ops[i] == prefix[i]);
            }
        }
        law_unstored_id_not_found(cap, prefix, k);
        let prev = entries_after_ops(Seq::<Entry>::empty(), cap, prefix);
        let last = ops[ops.len() - 1];
        match last {
            CacheOp::Store(v) => {
                assert(stored_key(ops[ops.len() - 1]) == Some(v.id));
                law_put_key_set(prev, cap, v.id, v, k);
            },
            CacheOp::Lookup(k2) => {
                law_get_keeps_contents(prev, cap, k2, k);
            },
        }
    }
}

proof fn lemma_filter_ids_distinct(s: Seq<EventView>, p: spec_fn(EventView) -> bool)
    requires
        ids_distinct(s),
    ensures
        ids_distinct(s.filter(p)),
    decreases s.len(),
{
    reveal(Seq::filter);
    if s.len() > 0 {
        let rest = s.drop_last();
        assert(ids_distinct(rest)) by {
            assert forall|i: int, j: int| 0 <= i < rest.len() && 0 <= j < rest.len() && i != j implies
                (#[trigger] rest[i]).id != (#[trigger] rest[j]).id by {
                assert(rest[i] == s[i] && rest[j] == s[j]);
            }
        }
        lemma_filter_ids_distinct(rest, p);
        let sub = rest.filter(p);
        if p(s.last()) {
            let r = sub.push(s.last());
            assert(s.filter(p) == r);
            assert forall|i: int, j: int| 0 <= i < r.len() && 0 <= j < r.len() && i != j implies
                (#[trigger] r[i]).id != (#[trigger] r[j]).id by {
                if i < sub.len() && j < sub.len() {
                    assert(r[i] == sub[i] && r[j] == sub[j]);
                } else {
                    let a = if i < sub.len() { i } else { j };
                    assert(r[a] == sub[a]);
                    assert(sub.contains(sub[a]));
                    rest.lemma_filter_contains_rev(p, sub[a]);
                    let b = choose|b: int| 0 <= b < rest.len() && rest[b] == sub[a];
                    assert(rest[b] == s[b]);
                    assert(s.last() == s[s.len() - 1]);
                }
            }
        }
    }
}

/// A query never gives the same event twice: the ids of its results are distinct.
pub proof fn law_query_ids_distinct(es: Seq<Entry>, cap: nat, f: FilterView)
    requires
        entries_wf(es, cap),
    ensures
        ids_distinct(query_result(es, f)),
{
    let vals = es.map_values(|e: Entry| e.1);
    let pred = |e: EventView| filter_accepts(f, e);
    assert(ids_distinct(vals)) by {
        assert forall|i: int, j: int| 0 <= i < vals.len() && 0 <= j < vals.len() && i != j implies
            (#[trigger] vals[i]).id != (#[trigger] vals[j]).id by {
            assert(vals[i] == es[i].1 && vals[j] == es[j].1);
            assert(es[i].0 != es[j].0);
        }
    }
    lemma_filter_ids_distinct(vals, pred);
    let matching = vals.filter(pred);
    match f.limit {
        Some(l) => {
            if l < matching.len() {
                let t = matching.take(l as int);
                assert forall|i: int, j: int| 0 <= i < t.len() && 0 <= j < t.len() && i != j implies
                    (#[trigger] t[i]).id != (#[trigger] t[j]).id by {
                    assert(t[i] == matching[i] && t[j] == matching[j]);
                }
            }
        },
        None => {},
    }
}

proof fn lemma_filter_keeps_order(s: Seq<EventView>, p: spec_fn(EventView) -> bool, i: int, j: int)
    requires
        0 <= i < j < s.len(),
        p(s[i]),
        p(s[j]),
    ensures
        exists|a: int, b: int| 0 <= a < b < s.filter(p).len() && s.filter(p)[a] == s[i] && s.filter(p)[b] == s[j],
    decreases s.len(),
{
    reveal(Seq::filter);
    let rest = s.drop_last();
    let sub = rest.filter(p);
    assert(s.filter(p) == sub.push(s.last()) || s.filter(p) == sub);
    assert(rest[i] == s[i]);
    if j < s.len() - 1 {
        assert(rest[j] == s[j]);
        lemma_filter_keeps_order(rest, p, i, j);
        let (a, b) = choose|a: int, b: int| 0 <= a < b < sub.len() && sub[a] == rest[i] && sub[b] == rest[j];
        if p(s.last()) {
            assert(s.filter(p)[a] == sub[a] && s.filter(p)[b] == sub[b]);
        }
    } else {
        assert(s.last() == s[j]);
        rest.lemma_filter_contains(p, i);
        let a = choose|a: int| 0 <= a < sub.len() && sub[a] == rest[i];
        let b = sub.len() as int;
        assert(s.filter(p) == sub.push(s.last()));
        assert(s.filter(p)[a] == sub[a]);
        assert(s.filter(p)[b] == s[j]);
    }
}

proof fn lemma_filter_order_from_source(s: Seq<EventView>, p: spec_fn(EventView) -> bool, a: int, b: int)
    requires
        0 <= a < b < s.filter(p).len(),
    ensures
        exists|i: int, j: int| 0 <= i < j < s.len() && s[i] == s.filter(p)[a] && s[j] == s.filter(p)[b],
    decreases s.len(),
{
    reveal(Seq::filter);
    let rest = s.drop_last();
    let sub = rest.filter(p);
    if b < sub.len() {
        assert(s.filter(p)[a] == sub[a] && s.filter(p)[b] == sub[b]);
        lemma_filter_order_from_source(rest, p, a, b);
        let (i, j) = choose|i: int, j: int| 0 <= i < j < rest.len() && rest[i] == sub[a] && rest[j] == sub[b];
        assert(s[i] == rest[i] && s[j] == rest[j]);
    } else {
        assert(p(s.last()));
        assert(s.filter(p) == sub.push(s.last()));
        assert(s.filter(p)[a] == sub[a]);
        assert(sub.contains(sub[a]));
        rest.lemma_filter_contains_rev(p, sub[a]);
        let i = choose|i: int| 0 <= i < rest.len() && rest[i] == sub[a];
        assert(s[i] == rest[i]);
        assert(s[s.len() - 1] == s.filter(p)[b]);
    }
}

/// A query gives the first matches, in the cache's order: every cached event
/// that passes the filter is in the result unless the result already holds
/// the filter's limit of events; a match more recently used than one in the
/// result is in the result too; and the results come most recently used first.
pub proof fn law_query_complete(es: Seq<Entry>, cap: nat, f: FilterView)
    requires
        entries_wf(es, cap),
    ensures
        forall|j: int| 0 <= j < es.len() && filter_accepts(f, #[trigger] es[j].1)
            && !query_result(es, f).contains(es[j].1) ==> (f.limit matches Some(l)
            && query_result(es, f).len() == l),
        forall|i: int, j: int| 0 <= i < j < es.len() && filter_accepts(f, #[trigger] es[i].1)
            && query_result(es, f).contains(#[trigger] es[j].1) ==> query_result(es, f).contains(es[i].1),
        forall|a: int, b: int| 0 <= a < b < query_result(es, f).len() ==> comes_before(
            es,
            #[trigger] query_result(es, f)[a],
            #[trigger] query_result(es, f)[b],
        ),
{
    let vals = es.map_values(|e: Entry| e.1);
    let pred = |e: EventView| filter_accepts(f, e);
    let matching = vals.filter(pred);
    let q = query_result(es, f);
    assert(ids_distinct(vals)) by {
        assert forall|i: int, j: int| 0 <= i < vals.len() && 0 <= j < vals.len() && i != j implies
            (#[trigger] vals[i]).id != (#[trigger] vals[j]).id by {
            assert(vals[i] == es[i].1 && vals[j] == es[j].1);
            assert(es[i].0 != es[j].0);
        }
    }
    lemma_filter_ids_distinct(vals, pred);
    assert(q.len() <= matching.len());
    assert forall|k: int| 0 <= k < q.len() implies #[trigger] q[k] == matching[k] by {}
    // completeness
    assert forall|j: int| 0 <= j < es.len() && filter_accepts(f, #[trigger] es[j].1)
        && !q.contains(es[j].1) implies (f.limit matches Some(l) && q.len() == l) by {
        assert(vals[j] == es[j].1);
        assert(pred(vals[j]));
        vals.lemma_filter_contains(pred, j);
        let m = choose|m: int| 0 <= m < matching.len() && matching[m] == vals[j];
        if !(f.limit matches Some(l) && l < matching.len()) {
            assert(q == matching);
            assert(q[m] == es[j].1);
        } else {
            let l = f.limit->0;
            if m < l {
                assert(q[m] == es[j].1);
            }
        }
    }
    // a more recent match than a returned one is returned
    assert forall|i: int, j: int| 0 <= i < j < es.len() && filter_accepts(f, #[trigger] es[i].1)
        && q.contains(#[trigger] es[j].1) implies q.contains(es[i].1) by {
        assert(vals[i] == es[i].1 && vals[j] == es[j].1);
        let b = choose|b: int| 0 <= b < q.len() && q[b] == es[j].1;
        assert(pred(vals[i]));
        assert(pred(vals[j])) by {
            assert(matching[b] == vals[j]);
            vals.lemma_filter_pred(pred, b);
        }
        lemma_filter_keeps_order(vals, pred, i, j);
        let (a2, b2) = choose|a2: int, b2: int| 0 <= a2 < b2 < matching.len() && matching[a2] == vals[i]
            && matching[b2] == vals[j];
        assert(matching[b] == matching[b2]);
        if b != b2 {
            assert(matching[b].id != matching[b2].id);
        }
        assert(q[a2] == matching[a2]);
    }
    // results keep the cache's order
    assert forall|a: int, b: int| 0 <= a < b < query_result(es, f).len() implies comes_before(
        es,
        #[trigger] query_result(es, f)[a],
        #[trigger] query_result(es, f)[b],
    ) by {
        lemma_filter_order_from_source(vals, pred, a, b);
        let (i, j) = choose|i: int, j: int| 0 <= i < j < vals.len() && vals[i] == matching[a] && vals[j] == matching[b];
        assert(vals[i] == es[i].1 && vals[j] == es[j].1);
        assert(q[a] == matching[a] && q[b] == matching[b]);
        assert(es[i].1 == q[a] && es[j].1 == q[b]);
        assert(i < j);
    }
}

} // verus!
