//! The event queue of one alias.
//!
//! A queue holds events by fingerprint. It owns a store that maps
//! fingerprints to payloads and lets them expire, the arrival order of the
//! fingerprints, and a short-lived set of the fingerprints seen recently,
//! which suppresses duplicates. The order says in which sequence events
//! leave; the store says which of them are still alive. A fingerprint whose
//! payload has expired is passed over when the queue is drained.

use vstd::prelude::*;
use std::collections::VecDeque;
use moka::sync::Cache;
use crate::store::{
    cache_entries, cache_get, cache_insert, cache_invalidate, cache_limits, cache_new,
    remains_of, MAX_TTL_SECONDS,
};
use crate::text::seek;

verus! {

/// How many events a queue holds at most.
pub const CAPACITY: u64 = 10_000;

/// How long an event lives, in seconds, where nothing else is configured.
pub const DEFAULT_TTL_SECONDS: u64 = 300;

/// How long a fingerprint counts as seen recently at most, in seconds.
pub const DEDUP_TTL_SECONDS: u64 = 200;

/// How long a fingerprint counts as seen recently in a queue whose events
/// live `ttl_seconds`: the usual time, or two thirds of the events' life
/// where that is no longer than the usual time. The window is shorter than
/// the life of the events, unless they live no time at all.
pub open spec fn dedup_window(ttl_seconds: nat) -> nat {
    if ttl_seconds > DEDUP_TTL_SECONDS {
        DEDUP_TTL_SECONDS as nat
    } else {
        2 * ttl_seconds / 3
    }
}

/// The dedup window never exceeds the usual time and ends before the events
/// do.
pub proof fn lemma_dedup_window(ttl_seconds: nat)
    ensures
        dedup_window(ttl_seconds) <= DEDUP_TTL_SECONDS,
        ttl_seconds > 0 ==> dedup_window(ttl_seconds) < ttl_seconds,
{
}

/// The state of a queue.
pub struct QueueView {
    /// The fingerprints in arrival order, oldest first.
    pub order: Seq<Seq<char>>,
    /// The payloads held, by fingerprint.
    pub held: Map<Seq<char>, Seq<u8>>,
    /// The fingerprints seen recently.
    pub recent: Set<Seq<char>>,
    /// The largest number of payloads that the queue holds.
    pub capacity: nat,
    /// How long a payload lives, in seconds.
    pub ttl_seconds: nat,
    /// How long a fingerprint counts as seen recently, in seconds.
    pub dedup_seconds: nat,
}

/// The views of the fingerprints in `keys`, in order.
pub open spec fn key_views(keys: Seq<String>) -> Seq<Seq<char>> {
    Seq::new(keys.len(), |i: int| keys[i]@)
}

/// The views of the events in `pairs`, in order.
pub open spec fn pair_views(pairs: Seq<(String, Vec<u8>)>) -> Seq<(Seq<char>, Seq<u8>)> {
    Seq::new(pairs.len(), |i: int| (pairs[i].0@, pairs[i].1@))
}

/// The fingerprints of the events in `pairs`, in order.
pub open spec fn keys_of(pairs: Seq<(Seq<char>, Seq<u8>)>) -> Seq<Seq<char>> {
    Seq::new(pairs.len(), |i: int| pairs[i].0)
}

/// `order` with `key` at the back: its earlier occurrence, if any, is taken
/// out first.
pub open spec fn moved_to_back(order: Seq<Seq<char>>, key: Seq<char>) -> Seq<Seq<char>> {
    let at = seek(order, key, 0);
    if at < order.len() {
        order.remove(at as int).push(key)
    } else {
        order.push(key)
    }
}

/// The elements of `popped` that are in `hits`, in order.
pub open spec fn kept(popped: Seq<Seq<char>>, hits: Set<Seq<char>>) -> Seq<Seq<char>>
    decreases popped.len(),
{
    if popped.len() == 0 {
        popped
    } else if hits.contains(popped.last()) {
        kept(popped.drop_last(), hits).push(popped.last())
    } else {
        kept(popped.drop_last(), hits)
    }
}

/// The first `count` fingerprints that leave `order`: from the front if
/// `oldest`, else from the back.
pub open spec fn popped(order: Seq<Seq<char>>, count: nat, oldest: bool) -> Seq<Seq<char>> {
    if oldest {
        Seq::new(count, |i: int| order[i])
    } else {
        Seq::new(count, |i: int| order[order.len() - 1 - i])
    }
}

/// What is left of `order` once `count` fingerprints have left it.
pub open spec fn unpopped(order: Seq<Seq<char>>, count: nat, oldest: bool) -> Seq<Seq<char>> {
    if oldest {
        order.skip(count as int)
    } else {
        order.take(order.len() - count)
    }
}

/// Whether `out` is what a drain for at most `n` events yields when the
/// fingerprints `popped` have left the order, one after the other, and the
/// store held `held` before.
///
/// - The events come in the order in which their fingerprints were popped,
///   and a popped fingerprint that is not among them was passed over.
/// - Each event carries the payload that the store held for it.
/// - Popping stops with the event that fills the budget.
pub open spec fn is_drain(
    popped: Seq<Seq<char>>,
    held: Map<Seq<char>, Seq<u8>>,
    n: nat,
    out: Seq<(Seq<char>, Seq<u8>)>,
) -> bool {
    &&& keys_of(out) == kept(popped, keys_of(out).to_set())
    &&& forall|i: int| 0 <= i < out.len() ==> held.contains_pair((#[trigger] out[i]).0, out[i].1)
    &&& out.len() <= n
    &&& (n == 0 ==> popped.len() == 0)
    &&& (out.len() == n && popped.len() > 0 ==> keys_of(out).last() == popped.last())
}

impl QueueView {
    /// No fingerprint is queued twice, and every payload held belongs to a
    /// queued fingerprint.
    pub open spec fn wf(self) -> bool {
        &&& self.order.no_duplicates()
        &&& forall|k: Seq<char>| #[trigger] self.held.dom().contains(k) ==> self.order.contains(k)
    }

    /// The queue that holds nothing, with the usual capacity and dedup
    /// window, for events that live `ttl_seconds`.
    pub open spec fn fresh(ttl_seconds: nat) -> QueueView {
        QueueView {
            order: Seq::empty(),
            held: Map::empty(),
            recent: Set::empty(),
            capacity: CAPACITY as nat,
            ttl_seconds,
            dedup_seconds: dedup_window(ttl_seconds),
        }
    }

    /// Whether the limits of the queue are those of `other`.
    pub open spec fn same_limits(self, other: QueueView) -> bool {
        &&& other.capacity == self.capacity
        &&& other.ttl_seconds == self.ttl_seconds
        &&& other.dedup_seconds == self.dedup_seconds
    }

    /// The state after `key` has been queued with `value`, before anything
    /// has expired.
    pub open spec fn enqueue(self, key: Seq<char>, value: Seq<u8>) -> QueueView {
        QueueView {
            order: moved_to_back(self.order, key),
            held: self.held.insert(key, value),
            recent: self.recent.insert(key),
            ..self
        }
    }

    /// Whether `after` is this state once `key` has been queued with
    /// `value`: the state after queueing, but for what has expired since;
    /// and the payload is held and the fingerprint counts as seen recently,
    /// unless the queue lets them live no time at all.
    pub open spec fn queued_as(self, after: QueueView, key: Seq<char>, value: Seq<u8>) -> bool {
        &&& self.enqueue(key, value).fades_to(after)
        &&& self.capacity > 0 && self.ttl_seconds > 0 ==> after.held.contains_pair(key, value)
        &&& self.capacity > 0 && self.dedup_seconds > 0 ==> after.recent.contains(key)
    }

    /// Whether `later` is this state after some time: the order is the same,
    /// payloads and recent fingerprints may have expired, none has appeared.
    pub open spec fn fades_to(self, later: QueueView) -> bool {
        &&& later.order == self.order
        &&& remains_of(later.held, self.held)
        &&& later.recent.subset_of(self.recent)
        &&& self.same_limits(later)
    }

    /// Whether `after` and `out` are what a drain for at most `n` events
    /// makes of this state.
    pub open spec fn drains_to(
        self,
        after: QueueView,
        n: nat,
        out: Seq<(Seq<char>, Seq<u8>)>,
        oldest: bool,
    ) -> bool {
        let count = (self.order.len() - after.order.len()) as nat;
        &&& after.order.len() <= self.order.len()
        &&& after.order == unpopped(self.order, count, oldest)
        &&& after.recent == self.recent
        &&& self.same_limits(after)
        &&& remains_of(after.held, self.held)
        &&& forall|i: int|
            0 <= i < count ==> !after.held.dom().contains(
                #[trigger] popped(self.order, count, oldest)[i],
            )
        &&& is_drain(popped(self.order, count, oldest), self.held, n, out)
        &&& (out.len() == n || after.order.len() == 0)
    }
}

/// `seek` finds the first occurrence at or after `from`, or none.
pub proof fn lemma_seek(items: Seq<Seq<char>>, wanted: Seq<char>, from: nat)
    requires
        from <= items.len(),
    ensures
        from <= seek(items, wanted, from) <= items.len(),
        seek(items, wanted, from) < items.len() ==> items[seek(items, wanted, from) as int]
            == wanted,
        forall|j: int| from <= j < seek(items, wanted, from) ==> items[j] != wanted,
    decreases items.len() - from,
{
    if from < items.len() && items[from as int] != wanted {
        lemma_seek(items, wanted, from + 1);
    }
}

/// Moving a fingerprint to the back keeps the order free of duplicates and
/// adds nothing but that fingerprint.
pub proof fn lemma_moved_to_back(order: Seq<Seq<char>>, key: Seq<char>)
    requires
        order.no_duplicates(),
    ensures
        moved_to_back(order, key).no_duplicates(),
        moved_to_back(order, key).len() > 0,
        moved_to_back(order, key).last() == key,
        forall|k: Seq<char>|
            #[trigger] moved_to_back(order, key).contains(k) <==> (order.contains(k) || k == key),
{
    lemma_seek(order, key, 0);
    let at = seek(order, key, 0) as int;
    let moved = moved_to_back(order, key);
    if at < order.len() {
        let cut = order.remove(at);
        assert forall|i: int, j: int| 0 <= i < j < moved.len() implies moved[i] != moved[j] by {
            let oi = if i < at { i } else { i + 1 };
            assert(moved[i] == order[oi]);
            if j < cut.len() {
                let oj = if j < at { j } else { j + 1 };
                assert(moved[j] == order[oj]);
            } else {
                assert(moved[j] == order[at]);
            }
        }
        assert forall|k: Seq<char>| moved.contains(k) <==> (order.contains(k) || k == key) by {
            if moved.contains(k) {
                let i = choose|i: int| 0 <= i < moved.len() && moved[i] == k;
                if i < cut.len() {
                    let oi = if i < at { i } else { i + 1 };
                    assert(order[oi] == k);
                }
            }
            if order.contains(k) && k != key {
                let i = choose|i: int| 0 <= i < order.len() && order[i] == k;
                let mi = if i < at { i } else { i - 1 };
                assert(moved[mi] == k);
            }
            assert(moved[moved.len() - 1] == key);
        }
    } else {
        assert forall|i: int, j: int| 0 <= i < j < moved.len() implies moved[i] != moved[j] by {
            assert(moved[i] == order[i]);
            if j < order.len() {
                assert(moved[j] == order[j]);
            }
        }
        assert forall|k: Seq<char>| moved.contains(k) <==> (order.contains(k) || k == key) by {
            if moved.contains(k) {
                let i = choose|i: int| 0 <= i < moved.len() && moved[i] == k;
                if i < order.len() {
                    assert(order[i] == k);
                }
            }
            if order.contains(k) {
                let i = choose|i: int| 0 <= i < order.len() && order[i] == k;
                assert(moved[i] == k);
            }
            assert(moved[moved.len() - 1] == key);
        }
    }
}

/// A fingerprint that was not popped does not change what is kept.
pub proof fn lemma_kept_ignores_absent(popped: Seq<Seq<char>>, hits: Set<Seq<char>>, key: Seq<char>)
    requires
        !popped.contains(key),
    ensures
        kept(popped, hits.insert(key)) == kept(popped, hits),
    decreases popped.len(),
{
    if popped.len() > 0 {
        let init = popped.drop_last();
        assert(popped[popped.len() - 1] == popped.last());
        assert forall|i: int| 0 <= i < init.len() implies init[i] != key by {
            assert(popped[i] == init[i]);
        }
        lemma_kept_ignores_absent(init, hits, key);
    }
}

/// Queueing keeps a well-formed state well-formed, and so does the passing
/// of time.
pub proof fn lemma_enqueue_wf(q: QueueView, key: Seq<char>, value: Seq<u8>, later: QueueView)
    requires
        q.wf(),
        q.enqueue(key, value).fades_to(later),
    ensures
        q.enqueue(key, value).wf(),
        later.wf(),
{
    lemma_moved_to_back(q.order, key);
}

/// The event queue of one alias.
pub struct EventQueue {
    store: Cache<String, Vec<u8>>,
    recent: Cache<String, Vec<u8>>,
    order: VecDeque<String>,
}

impl View for EventQueue {
    type V = QueueView;

    closed spec fn view(&self) -> QueueView {
        QueueView {
            order: key_views(self.order@),
            held: cache_entries(self.store),
            recent: cache_entries(self.recent).dom(),
            capacity: cache_limits(self.store).0,
            ttl_seconds: cache_limits(self.store).1,
            dedup_seconds: cache_limits(self.recent).1,
        }
    }
}

/// Moves `key` to the back of `order`, taking its earlier occurrence out.
fn move_to_back(order: &mut VecDeque<String>, key: String)
    ensures
        key_views(final(order)@) == moved_to_back(key_views(old(order)@), key@),
{
    let ghost before = key_views(order@);
    let mut at: usize = 0;
    while at < order.len() && !(order[at] == key)
        invariant
            at <= order.len(),
            before == key_views(order@),
            seek(before, key@, 0) == seek(before, key@, at as nat),
        decreases order.len() - at,
    {
        assert(before[at as int] == order@[at as int]@);
        at += 1;
    }
    if at < order.len() {
        assert(before[at as int] == order@[at as int]@);
        let _ = order.remove(at);
        assert(key_views(order@) == before.remove(at as int));
    }
    order.push_back(key);
    assert(key_views(order@) == moved_to_back(before, key@));
}

impl EventQueue {
    /// Whether the queue is in a state that its operations keep up: its
    /// view is well-formed, and the fingerprints seen recently have as much
    /// room as the payloads.
    pub closed spec fn wf(&self) -> bool {
        &&& self@.wf()
        &&& cache_limits(self.recent).0 == cache_limits(self.store).0
    }

    /// The view of a well-formed queue is well-formed.
    pub proof fn lemma_view_wf(&self)
        requires
            self.wf(),
        ensures
            self@.wf(),
    {
    }

    /// An empty queue with the usual capacity whose events live
    /// `ttl_seconds`. The dedup window is `dedup_window(ttl_seconds)`, which
    /// is shorter than the life of the events.
    pub fn new(ttl_seconds: u64) -> (queue: EventQueue)
        requires
            ttl_seconds <= MAX_TTL_SECONDS,
        ensures
            queue@ == QueueView::fresh(ttl_seconds as nat),
            queue.wf(),
    {
        let dedup_seconds: u64 = if ttl_seconds > DEDUP_TTL_SECONDS {
            DEDUP_TTL_SECONDS
        } else {
            2 * ttl_seconds / 3
        };
        let queue = EventQueue {
            store: cache_new(CAPACITY, ttl_seconds),
            recent: cache_new(CAPACITY, dedup_seconds),
            order: VecDeque::new(),
        };
        assert(queue@.order == Seq::<Seq<char>>::empty());
        assert(queue@.held == Map::<Seq<char>, Seq<u8>>::empty());
        assert(queue@.recent == Set::<Seq<char>>::empty());
        queue
    }

    /// Queues `value` under `key` unless the fingerprint was seen recently.
    /// Returns whether the event was queued.
    ///
    /// An event that is queued goes to the back of the order, also where its
    /// fingerprint was queued before. A fingerprint that was not seen
    /// recently is always queued.
    pub fn insert(&mut self, key: String, value: Vec<u8>) -> (queued: bool)
        requires
            old(self).wf(),
        ensures
            final(self).wf(),
            queued ==> old(self)@.queued_as(final(self)@, key@, value@),
            !queued ==> old(self)@.fades_to(final(self)@) && old(self)@.recent.contains(key@),
            !old(self)@.recent.contains(key@) ==> queued,
    {
        let seen = cache_get(&mut self.recent, key.as_str()).is_some();
        let ghost looked = self@;
        assert(looked.order == old(self)@.order);
        assert(looked.held == old(self)@.held);
        let queued = self.insert_if_fresh(seen, key, value);
        proof {
            if queued {
                lemma_fades_after_enqueue(old(self)@, looked, key@, value@, self@);
            }
        }
        queued
    }

    /// Queues `value` under `key` unless `seen_recently` says that the
    /// fingerprint is a duplicate. Returns whether the event was queued.
    pub fn insert_if_fresh(
        &mut self,
        seen_recently: bool,
        key: String,
        value: Vec<u8>,
    ) -> (queued: bool)
        requires
            old(self).wf(),
        ensures
            final(self).wf(),
            queued == !seen_recently,
            seen_recently ==> final(self)@ == old(self)@,
            !seen_recently ==> old(self)@.queued_as(final(self)@, key@, value@),
    {
        if seen_recently {
            return false;
        }
        let ghost before = self@;
        let empty: Vec<u8> = Vec::new();
        cache_insert(&mut self.recent, key.clone(), empty);
        cache_insert(&mut self.store, key.clone(), value);
        move_to_back(&mut self.order, key);
        proof {
            assert(self@.recent.subset_of(before.recent.insert(key@)));
            lemma_enqueue_wf(before, key@, value@, self@);
        }
        true
    }

    /// Looks up the payload queued under `key`. The order is left as it is.
    pub fn get(&mut self, key: &str) -> (found: Option<Vec<u8>>)
        requires
            old(self).wf(),
        ensures
            final(self).wf(),
            old(self)@.fades_to(final(self)@),
            match found {
                Some(value) => final(self)@.held.contains_pair(key@, value@),
                None => !final(self)@.held.contains_key(key@),
            },
    {
        let found = cache_get(&mut self.store, key);
        assert(self@.order == old(self)@.order);
        assert(remains_of(self@.held, old(self)@.held));
        found
    }
}

/// Time that passes before an event is queued changes nothing in what the
/// queue may hold afterwards.
pub proof fn lemma_fades_after_enqueue(
    q: QueueView,
    looked: QueueView,
    key: Seq<char>,
    value: Seq<u8>,
    later: QueueView,
)
    requires
        q.fades_to(looked),
        looked.enqueue(key, value).fades_to(later),
    ensures
        q.enqueue(key, value).fades_to(later),
{
    assert forall|k: Seq<char>| later.held.dom().contains(k) implies q.held.insert(
        key,
        value,
    ).dom().contains(k) && later.held[k] == q.held.insert(key, value)[k] by {
        assert(looked.held.insert(key, value).dom().contains(k));
        if k != key {
            assert(looked.held.dom().contains(k));
        }
    }
}

/// Settles what becomes of a fingerprint that has left the order, once the
/// store was asked for its payload: an event whose payload was found is
/// handed out and counts, and its payload is then to be discarded from the
/// store; a fingerprint whose payload has expired is passed over and does
/// not count.
pub fn hand_out(
    out: &mut Vec<(String, Vec<u8>)>,
    key: String,
    found: Option<Vec<u8>>,
) -> (counted: bool)
    ensures
        counted == found is Some,
        pair_views(final(out)@) == (match found {
            Some(value) => pair_views(old(out)@).push((key@, value@)),
            None => pair_views(old(out)@),
        }),
{
    match found {
        Some(value) => {
            out.push((key, value));
            assert(pair_views(out@) =~= pair_views(old(out)@).push((key@, value@)));
            true
        },
        None => false,
    }
}

/// One more fingerprint leaves the order: what was kept so far stays kept,
/// and the fingerprint joins it if its payload was found.
pub proof fn lemma_pop_one(
    order: Seq<Seq<char>>,
    count: nat,
    oldest: bool,
    keys: Seq<Seq<char>>,
    hit: bool,
)
    requires
        order.no_duplicates(),
        count < order.len(),
        keys == kept(popped(order, count, oldest), keys.to_set()),
        forall|i: int|
            0 <= i < keys.len() ==> popped(order, count, oldest).contains(#[trigger] keys[i]),
    ensures
        ({
            let next = popped(order, count + 1, oldest);
            &&& next.drop_last() == popped(order, count, oldest)
            &&& next.last() == if oldest {
                order[count as int]
            } else {
                order[order.len() - 1 - count]
            }
            &&& !popped(order, count, oldest).contains(next.last())
            &&& hit ==> keys.push(next.last()) == kept(next, keys.push(next.last()).to_set())
            &&& hit ==> forall|i: int|
                0 <= i < keys.len() + 1 ==> next.contains(#[trigger] keys.push(next.last())[i])
            &&& !hit ==> keys == kept(next, keys.to_set())
            &&& !hit ==> forall|i: int| 0 <= i < keys.len() ==> next.contains(#[trigger] keys[i])
        }),
{
    let prev = popped(order, count, oldest);
    let next = popped(order, count + 1, oldest);
    let k = next.last();
    assert(next.drop_last() == prev);
    assert forall|i: int| 0 <= i < prev.len() implies prev[i] != k by {
        if oldest {
            assert(prev[i] == order[i] && k == order[count as int]);
        } else {
            assert(prev[i] == order[order.len() - 1 - i] && k == order[order.len() - 1 - count]);
        }
    }
    assert(!keys.to_set().contains(k)) by {
        if keys.contains(k) {
            let i = choose|i: int| 0 <= i < keys.len() && keys[i] == k;
            assert(prev.contains(keys[i]));
        }
    }
    let keys2 = if hit {
        keys.push(k)
    } else {
        keys
    };
    if hit {
        assert(keys2.to_set() == keys.to_set().insert(k)) by {
            assert forall|x: Seq<char>| keys2.to_set().contains(x) <==> keys.to_set().insert(
                k,
            ).contains(x) by {
                if keys2.contains(x) {
                    let i = choose|i: int| 0 <= i < keys2.len() && keys2[i] == x;
                    if i < keys.len() {
                        assert(keys[i] == x);
                    }
                }
                if keys.contains(x) {
                    let i = choose|i: int| 0 <= i < keys.len() && keys[i] == x;
                    assert(keys2[i] == x);
                }
                assert(keys2[keys.len() as int] == k);
            }
        }
        lemma_kept_ignores_absent(prev, keys.to_set(), k);
    }
    assert forall|i: int| 0 <= i < keys.len() implies next.contains(#[trigger] keys[i]) by {
        let j = choose|j: int| 0 <= j < prev.len() && prev[j] == keys[i];
        assert(next[j] == keys[i]);
    }
    if hit {
        assert forall|i: int| 0 <= i < keys.len() + 1 implies next.contains(
            #[trigger] keys.push(k)[i],
        ) by {
            if i < keys.len() {
                assert(next.contains(keys[i]));
            } else {
                assert(next[count as int] == k);
            }
        }
    }
}

impl EventQueue {
    /// Takes up to `n` events out of the queue, oldest first if `oldest`,
    /// else newest first. A fingerprint whose payload has expired is dropped
    /// and does not count.
    pub fn drain(&mut self, n: usize, oldest: bool) -> (out: Vec<(String, Vec<u8>)>)
        requires
            old(self).wf(),
        ensures
            final(self).wf(),
            old(self)@.wf(),
            final(self)@.wf(),
            old(self)@.drains_to(final(self)@, n as nat, pair_views(out@), oldest),
            keys_of(pair_views(out@)).no_duplicates(),
    {
        let mut out: Vec<(String, Vec<u8>)> = Vec::new();
        let ghost before = self@;
        let ghost mut count: nat = 0;
        assert(self@.order == unpopped(before.order, 0, oldest));
        assert(keys_of(pair_views(out@)) == kept(
            popped(before.order, 0, oldest),
            keys_of(pair_views(out@)).to_set(),
        ));
        while out.len() < n && self.order.len() > 0
            invariant
                before.wf(),
                count <= before.order.len(),
                self@.order == unpopped(before.order, count, oldest),
                self@.recent == before.recent,
                before.same_limits(self@),
                cache_limits(self.recent).0 == cache_limits(self.store).0,
                remains_of(self@.held, before.held),
                forall|i: int|
                    0 <= i < count ==> !self@.held.dom().contains(
                        #[trigger] popped(before.order, count, oldest)[i],
                    ),
                keys_of(pair_views(out@)) == kept(
                    popped(before.order, count, oldest),
                    keys_of(pair_views(out@)).to_set(),
                ),
                forall|i: int|
                    0 <= i < out.len() ==> before.held.contains_pair(
                        (#[trigger] pair_views(out@)[i]).0,
                        pair_views(out@)[i].1,
                    ),
                forall|i: int|
                    0 <= i < out.len() ==> popped(before.order, count, oldest).contains(
                        #[trigger] keys_of(pair_views(out@))[i],
                    ),
                out.len() <= n,
                n == 0 ==> count == 0,
                out.len() == n && count > 0 ==> keys_of(pair_views(out@)).last() == popped(
                    before.order,
                    count,
                    oldest,
                ).last(),
            decreases self.order.len(),
        {
            let ghost keys = keys_of(pair_views(out@));
            let ghost prev = popped(before.order, count, oldest);
            let ghost pairs = pair_views(out@);
            let ghost held_then = self@.held;
            let ghost queued = self.order@;
            assert(key_views(queued) == unpopped(before.order, count, oldest));
            assert(key_views(queued).len() == queued.len());
            assert(count < before.order.len());
            let taken = if oldest {
                self.order.pop_front()
            } else {
                self.order.pop_back()
            };
            let key = taken.unwrap();
            let ghost next = popped(before.order, (count + 1) as nat, oldest);
            assert(key@ == next.last() && self@.order == unpopped(
                before.order,
                (count + 1) as nat,
                oldest,
            )) by {
                let rest = unpopped(before.order, count, oldest);
                if oldest {
                    assert(rest[0] == before.order[count as int]);
                    assert(key@ == key_views(queued)[0]);
                    assert(key_views(self.order@) =~= rest.skip(1));
                    assert(rest.skip(1) =~= before.order.skip((count + 1) as int));
                } else {
                    assert(rest[rest.len() - 1] == before.order[before.order.len() - 1 - count]);
                    assert(key@ == key_views(queued)[queued.len() - 1]);
                    assert(key_views(self.order@) =~= rest.take(rest.len() - 1));
                    assert(rest.take(rest.len() - 1) =~= before.order.take(
                        before.order.len() - (count + 1),
                    ));
                }
            }
            let found = cache_get(&mut self.store, key.as_str());
            proof {
                lemma_pop_one(before.order, count, oldest, keys, found is Some);
                if found is Some {
                    assert(before.held.contains_pair(key@, found->0@));
                }
            }
            let counted = hand_out(&mut out, key.clone(), found);
            if counted {
                cache_invalidate(&mut self.store, key.as_str());
            }
            proof {
                if counted {
                    assert(keys_of(pair_views(out@)) == keys.push(next.last()));
                } else {
                    assert(keys_of(pair_views(out@)) == keys);
                }
            }
            proof {
                assert forall|i: int| 0 <= i < count + 1 implies !self@.held.dom().contains(
                    #[trigger] next[i],
                ) by {
                    if i < count {
                        assert(next[i] == prev[i]);
                        assert(!held_then.dom().contains(prev[i]));
                    }
                }
                count = count + 1;
            }
        }
        proof {
            assert forall|k: Seq<char>| #[trigger]
                self@.held.dom().contains(k) implies self@.order.contains(k) by {
                assert(before.held.dom().contains(k));
                let j = choose|j: int| 0 <= j < before.order.len() && before.order[j] == k;
                if oldest {
                    if j < count {
                        assert(popped(before.order, count, oldest)[j] == k);
                    } else {
                        assert(self@.order[j - count] == k);
                    }
                } else {
                    if j >= before.order.len() - count {
                        assert(popped(before.order, count, oldest)[before.order.len() - 1 - j]
                            == k);
                    } else {
                        assert(self@.order[j] == k);
                    }
                }
            }
        }
        proof {
            lemma_drained_keys_distinct(before, self@, n as nat, pair_views(out@), oldest);
        }
        out
    }

    /// Takes up to `n` events out of the queue, oldest first.
    pub fn remove_oldest(&mut self, n: usize) -> (out: Vec<(String, Vec<u8>)>)
        requires
            old(self).wf(),
        ensures
            final(self).wf(),
            old(self)@.drains_to(final(self)@, n as nat, pair_views(out@), true),
    {
        self.drain(n, true)
    }

    /// Takes up to `n` events out of the queue, newest first.
    pub fn remove_newest(&mut self, n: usize) -> (out: Vec<(String, Vec<u8>)>)
        requires
            old(self).wf(),
        ensures
            final(self).wf(),
            old(self)@.drains_to(final(self)@, n as nat, pair_views(out@), false),
    {
        self.drain(n, false)
    }
}

/// What is kept is never longer than what was popped, and is all of it only
/// if nothing was passed over.
pub proof fn lemma_kept_all(popped: Seq<Seq<char>>, hits: Set<Seq<char>>)
    ensures
        kept(popped, hits).len() <= popped.len(),
        kept(popped, hits).len() == popped.len() ==> kept(popped, hits) == popped,
    decreases popped.len(),
{
    if popped.len() > 0 {
        lemma_kept_all(popped.drop_last(), hits);
        if kept(popped, hits).len() == popped.len() {
            assert(kept(popped, hits) =~= popped.drop_last().push(popped.last()));
            assert(popped.drop_last().push(popped.last()) =~= popped);
        }
    }
}

/// What is kept stands in the order in which it was popped: each kept
/// fingerprint was popped, and of two kept fingerprints the earlier was
/// popped first.
pub proof fn lemma_kept_in_order(popped: Seq<Seq<char>>, hits: Set<Seq<char>>, i: int, j: int)
    requires
        popped.no_duplicates(),
        0 <= i < j < kept(popped, hits).len(),
    ensures
        seek(popped, kept(popped, hits)[i], 0) < seek(popped, kept(popped, hits)[j], 0)
            < popped.len(),
    decreases popped.len(),
{
    let all = kept(popped, hits);
    let init = popped.drop_last();
    lemma_kept_all(init, hits);
    assert(init.no_duplicates()) by {
        assert forall|a: int, b: int| 0 <= a < b < init.len() implies init[a] != init[b] by {
            assert(init[a] == popped[a] && init[b] == popped[b]);
        }
    }
    assert(popped.take(init.len() as int) =~= init);
    if j < kept(init, hits).len() {
        lemma_kept_in_order(init, hits, i, j);
        lemma_kept_popped(init, hits, i);
        lemma_kept_popped(init, hits, j);
        lemma_seek_prefix(popped, all[i], init.len() as int);
        lemma_seek_prefix(popped, all[j], init.len() as int);
    } else {
        // the later fingerprint is the one popped last
        assert(all[j] == popped.last());
        lemma_kept_popped(init, hits, i);
        lemma_seek(init, all[i], 0);
        lemma_seek_prefix(popped, all[i], init.len() as int);
        lemma_seek(popped, all[j], 0);
        let at = seek(popped, all[j], 0) as int;
        if at < popped.len() - 1 {
            assert(popped[at] == popped[popped.len() - 1]);
        }
    }
}

/// Each kept fingerprint was popped.
pub proof fn lemma_kept_popped(popped: Seq<Seq<char>>, hits: Set<Seq<char>>, i: int)
    requires
        0 <= i < kept(popped, hits).len(),
    ensures
        popped.contains(kept(popped, hits)[i]),
        hits.contains(kept(popped, hits)[i]),
    decreases popped.len(),
{
    let init = popped.drop_last();
    if i < kept(init, hits).len() {
        lemma_kept_popped(init, hits, i);
        let a = choose|a: int| 0 <= a < init.len() && init[a] == kept(init, hits)[i];
        assert(popped[a] == kept(popped, hits)[i]);
    } else {
        assert(popped[popped.len() - 1] == kept(popped, hits)[i]);
    }
}

/// Where a fingerprint stands in a prefix, it stands in the whole.
pub proof fn lemma_seek_prefix(items: Seq<Seq<char>>, wanted: Seq<char>, upto: int)
    requires
        0 <= upto <= items.len(),
        items.take(upto).contains(wanted),
    ensures
        seek(items, wanted, 0) == seek(items.take(upto), wanted, 0),
        seek(items, wanted, 0) < upto,
{
    let part = items.take(upto);
    lemma_seek(part, wanted, 0);
    lemma_seek(items, wanted, 0);
    let a = seek(part, wanted, 0) as int;
    let b = seek(items, wanted, 0) as int;
    let w = choose|w: int| 0 <= w < part.len() && part[w] == wanted;
    assert(a <= w);
    assert(items[a] == part[a]);
    if b < a {
        assert(part[b] == items[b]);
    }
}

/// Queueing a fingerprint a second time leaves it in the order once, whether
/// the second call is suppressed or not. Where it is suppressed, the order
/// is untouched and the store holds nothing under the fingerprint but the
/// payload of the first call.
pub proof fn lemma_queued_once(
    q: QueueView,
    mid: QueueView,
    after: QueueView,
    key: Seq<char>,
    first: Seq<u8>,
    second: Seq<u8>,
)
    requires
        q.wf(),
        q.enqueue(key, first).fades_to(mid),
        mid.fades_to(after) || mid.enqueue(key, second).fades_to(after),
    ensures
        after.wf(),
        after.order.no_duplicates(),
        after.order.contains(key),
        mid.fades_to(after) ==> after.order == mid.order && (after.held.dom().contains(key)
            ==> after.held[key] == first),
        !mid.fades_to(after) ==> after.order.last() == key && (after.held.dom().contains(key)
            ==> after.held[key] == second),
{
    lemma_enqueue_wf(q, key, first, mid);
    lemma_moved_to_back(q.order, key);
    if mid.fades_to(after) {
        assert(after.wf());
        if after.held.dom().contains(key) {
            assert(mid.held.dom().contains(key));
        }
    } else {
        lemma_enqueue_wf(mid, key, second, after);
        lemma_moved_to_back(mid.order, key);
    }
}

/// A fingerprint that is not queued yet goes to the back of the order, which
/// is otherwise left as it is.
pub proof fn lemma_fresh_goes_last(q: QueueView, key: Seq<char>, value: Seq<u8>)
    requires
        !q.order.contains(key),
    ensures
        q.enqueue(key, value).order == q.order.push(key),
{
    lemma_seek(q.order, key, 0);
    let at = seek(q.order, key, 0) as int;
    if at < q.order.len() {
        assert(q.order[at] == key);
    }
}

/// A fingerprint that is queued again, after its time as a duplicate has
/// passed, goes to the back with its new payload; the others keep their
/// places among themselves.
pub proof fn lemma_requeued_goes_last(q: QueueView, key: Seq<char>, value: Seq<u8>)
    requires
        q.wf(),
        q.order.contains(key),
    ensures
        q.enqueue(key, value).order.len() == q.order.len(),
        q.enqueue(key, value).order.last() == key,
        q.enqueue(key, value).held[key] == value,
        q.enqueue(key, value).order.drop_last() == q.order.remove(seek(q.order, key, 0) as int),
{
    lemma_seek(q.order, key, 0);
    let at = seek(q.order, key, 0) as int;
    if at >= q.order.len() {
        let w = choose|w: int| 0 <= w < q.order.len() && q.order[w] == key;
        assert(q.order[w] != key);
    }
    assert(q.order.remove(at).push(key).drop_last() =~= q.order.remove(at));
}

/// A drain hands events out in arrival order, whatever has expired: each
/// event was queued among the fingerprints that left the order, and of two
/// events the one handed out first was queued first.
pub proof fn lemma_drain_in_arrival_order(
    q: QueueView,
    after: QueueView,
    n: nat,
    out: Seq<(Seq<char>, Seq<u8>)>,
    i: int,
    j: int,
)
    requires
        q.wf(),
        q.drains_to(after, n, out, true),
        0 <= i < j < out.len(),
    ensures
        seek(q.order, out[i].0, 0) < seek(q.order, out[j].0, 0) < q.order.len()
            - after.order.len(),
        out[i].1 == q.held[out[i].0],
        out[j].1 == q.held[out[j].0],
{
    let count = (q.order.len() - after.order.len()) as nat;
    let gone = popped(q.order, count, true);
    assert(gone =~= q.order.take(count as int));
    let keys = keys_of(out);
    assert(gone.no_duplicates()) by {
        assert forall|a: int, b: int| 0 <= a < b < gone.len() implies gone[a] != gone[b] by {
            assert(gone[a] == q.order[a] && gone[b] == q.order[b]);
        }
    }
    lemma_kept_in_order(gone, keys.to_set(), i, j);
    lemma_kept_popped(gone, keys.to_set(), i);
    lemma_kept_popped(gone, keys.to_set(), j);
    assert(keys[i] == out[i].0 && keys[j] == out[j].0);
    lemma_seek_prefix(q.order, keys[i], count as int);
    lemma_seek_prefix(q.order, keys[j], count as int);
}

/// A drain that passed nothing over hands out the oldest events, one for
/// each fingerprint that left the order, in arrival order and with the
/// payloads that the store held.
pub proof fn lemma_drain_without_gaps(
    q: QueueView,
    after: QueueView,
    n: nat,
    out: Seq<(Seq<char>, Seq<u8>)>,
)
    requires
        q.wf(),
        q.drains_to(after, n, out, true),
        out.len() == q.order.len() - after.order.len(),
    ensures
        keys_of(out) == q.order.take(out.len() as int),
        forall|i: int| 0 <= i < out.len() ==> (#[trigger] out[i]).1 == q.held[q.order[i]],
{
    let count = (q.order.len() - after.order.len()) as nat;
    let gone = popped(q.order, count, true);
    assert(gone =~= q.order.take(count as int));
    lemma_kept_all(gone, keys_of(out).to_set());
    assert forall|i: int| 0 <= i < out.len() implies (#[trigger] out[i]).1
        == q.held[q.order[i]] by {
        assert(keys_of(out)[i] == out[i].0);
        assert(q.held.contains_pair(out[i].0, out[i].1));
    }
}

/// What is kept of fingerprints that are pairwise distinct is pairwise
/// distinct.
pub proof fn lemma_kept_distinct(popped: Seq<Seq<char>>, hits: Set<Seq<char>>)
    requires
        popped.no_duplicates(),
    ensures
        kept(popped, hits).no_duplicates(),
{
    let all = kept(popped, hits);
    assert forall|i: int, j: int| 0 <= i < j < all.len() implies all[i] != all[j] by {
        lemma_kept_in_order(popped, hits, i, j);
    }
}

/// No fingerprint is handed out twice by a drain.
pub proof fn lemma_drained_keys_distinct(
    q: QueueView,
    after: QueueView,
    n: nat,
    out: Seq<(Seq<char>, Seq<u8>)>,
    oldest: bool,
)
    requires
        q.wf(),
        q.drains_to(after, n, out, oldest),
    ensures
        keys_of(out).no_duplicates(),
{
    let count = (q.order.len() - after.order.len()) as nat;
    let gone = popped(q.order, count, oldest);
    assert(gone.no_duplicates()) by {
        assert forall|a: int, b: int| 0 <= a < b < gone.len() implies gone[a] != gone[b] by {
            if oldest {
                assert(gone[a] == q.order[a] && gone[b] == q.order[b]);
            } else {
                assert(gone[a] == q.order[q.order.len() - 1 - a]);
                assert(gone[b] == q.order[q.order.len() - 1 - b]);
            }
        }
    }
    lemma_kept_distinct(gone, keys_of(out).to_set());
}

/// A drain leaves a well-formed queue well-formed.
pub proof fn lemma_drain_keeps_wf(
    q: QueueView,
    after: QueueView,
    n: nat,
    out: Seq<(Seq<char>, Seq<u8>)>,
    oldest: bool,
)
    requires
        q.wf(),
        q.drains_to(after, n, out, oldest),
    ensures
        after.wf(),
{
    let count = (q.order.len() - after.order.len()) as nat;
    let gone = popped(q.order, count, oldest);
    assert forall|i: int, j: int| 0 <= i < j < after.order.len() implies after.order[i]
        != after.order[j] by {
        if oldest {
            assert(after.order[i] == q.order[i + count] && after.order[j] == q.order[j + count]);
        } else {
            assert(after.order[i] == q.order[i] && after.order[j] == q.order[j]);
        }
    }
    assert forall|k: Seq<char>| #[trigger] after.held.dom().contains(k) implies after.order.contains(
        k,
    ) by {
        assert(q.held.dom().contains(k));
        let j = choose|j: int| 0 <= j < q.order.len() && q.order[j] == k;
        if oldest {
            if j < count {
                assert(gone[j] == k);
            } else {
                assert(after.order[j - count] == k);
            }
        } else {
            if j >= q.order.len() - count {
                assert(gone[q.order.len() - 1 - j] == k);
            } else {
                assert(after.order[j] == k);
            }
        }
    }
}

/// A fingerprint whose payload has expired is never handed out.
pub proof fn lemma_expired_is_not_handed_out(
    q: QueueView,
    after: QueueView,
    n: nat,
    out: Seq<(Seq<char>, Seq<u8>)>,
    oldest: bool,
    key: Seq<char>,
)
    requires
        q.drains_to(after, n, out, oldest),
        !q.held.dom().contains(key),
    ensures
        !keys_of(out).contains(key),
{
    if keys_of(out).contains(key) {
        let i = choose|i: int| 0 <= i < keys_of(out).len() && keys_of(out)[i] == key;
        assert(q.held.contains_pair(out[i].0, out[i].1));
    }
}

/// Of two queued fingerprints of which the older has expired, a drain for
/// one event drops the older without counting it and goes on to the
/// younger: the order is empty afterwards, the store holds neither, and what
/// is handed out is the younger event, or nothing if its payload has expired
/// in the meantime.
pub proof fn lemma_expired_head_is_skipped(
    q: QueueView,
    after: QueueView,
    out: Seq<(Seq<char>, Seq<u8>)>,
    expired: Seq<char>,
    live: Seq<char>,
)
    requires
        q.wf(),
        q.order == seq![expired, live],
        !q.held.dom().contains(expired),
        q.drains_to(after, 1, out, true),
    ensures
        after.order.len() == 0,
        !after.held.dom().contains(expired),
        !after.held.dom().contains(live),
        out.len() == 0 || out == seq![(live, q.held[live])],
{
    let count = (q.order.len() - after.order.len()) as nat;
    let gone = popped(q.order, count, true);
    let keys = keys_of(out);
    lemma_expired_is_not_handed_out(q, after, 1, out, true, expired);
    if out.len() == 1 {
        assert(keys[0] == out[0].0);
        assert(keys.contains(keys[0]));
        lemma_kept_popped(gone, keys.to_set(), 0);
        let at = choose|at: int| 0 <= at < gone.len() && gone[at] == keys[0];
        assert(gone[at] == q.order[at]);
        assert(at == 1);
        assert(q.held.contains_pair(out[0].0, out[0].1));
        assert(out =~= seq![(live, q.held[live])]);
    }
    assert(count == 2);
    assert(gone[0] == expired && gone[1] == live);
}

/// A fingerprint that is queued again once it no longer counts as a
/// duplicate leaves after the fingerprint that was behind it, with its new
/// payload: of two drains for one event each that pass nothing over, the
/// first hands out the other event and the second the one queued again.
pub proof fn lemma_reinsertion_reorders(
    q: QueueView,
    again: QueueView,
    first: QueueView,
    second: QueueView,
    out1: Seq<(Seq<char>, Seq<u8>)>,
    out2: Seq<(Seq<char>, Seq<u8>)>,
    f1: Seq<char>,
    f2: Seq<char>,
    value: Seq<u8>,
)
    requires
        q.wf(),
        q.order == seq![f1, f2],
        q.enqueue(f1, value).fades_to(again),
        again.drains_to(first, 1, out1, true),
        first.drains_to(second, 1, out2, true),
        out1.len() == 1 && first.order.len() == 1,
        out2.len() == 1 && second.order.len() == 0,
    ensures
        out1 == seq![(f2, q.held[f2])],
        out2 == seq![(f1, value)],
{
    lemma_seek(q.order, f1, 0);
    assert(q.order[0] == f1 && q.order[1] == f2);
    assert(f1 != f2);
    assert(seek(q.order, f1, 0) == 0);
    assert(again.order =~= seq![f2, f1]);
    lemma_enqueue_wf(q, f1, value, again);
    lemma_drain_without_gaps(again, first, 1, out1);
    assert(keys_of(out1)[0] == out1[0].0);
    assert(again.order.take(1)[0] == f2);
    assert(again.held.contains_pair(out1[0].0, out1[0].1));
    assert(out1 =~= seq![(f2, q.held[f2])]);
    lemma_drain_keeps_wf(again, first, 1, out1, true);
    assert(first.order =~= seq![f1]);
    lemma_drain_without_gaps(first, second, 1, out2);
    assert(keys_of(out2)[0] == out2[0].0);
    assert(first.order.take(1)[0] == f1);
    assert(first.held.contains_pair(out2[0].0, out2[0].1));
    assert(again.held.dom().contains(f1));
    assert(out2 =~= seq![(f1, value)]);
}

} // verus!
