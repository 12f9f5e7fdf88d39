//! The registry of event queues, one per configured alias.
//!
//! The aliases are registered when the registry is built; more can be added,
//! none is ever taken out. Every operation on events that names an alias the
//! registry does not know fails with `CacheError::AliasNotFound` and changes
//! nothing.

use vstd::prelude::*;
use crate::queue::{key_views, keys_of, lemma_seek, pair_views, EventQueue, QueueView};
use crate::store::MAX_TTL_SECONDS;
use crate::text::seek;

verus! {

/// Why an operation on the registry failed.
#[derive(Clone, Copy, Debug, PartialEq, Eq, Structural)]
pub enum CacheError {
    /// The alias is not among those the registry was built with.
    AliasNotFound,
}

impl CacheError {
    /// A short description of the failure.
    pub fn message(&self) -> (text: &'static str)
        ensures
            text@ == "Alias not found"@,
    {
        match self {
            CacheError::AliasNotFound => "Alias not found",
        }
    }
}

/// The elements of `names` without repetitions, each at the place of its
/// first occurrence.
pub open spec fn first_occurrences(names: Seq<Seq<char>>) -> Seq<Seq<char>>
    decreases names.len(),
{
    if names.len() == 0 {
        names
    } else {
        let before = first_occurrences(names.drop_last());
        if before.contains(names.last()) {
            before
        } else {
            before.push(names.last())
        }
    }
}

/// The queues of all aliases.
pub struct OrderedCache {
    aliases: Vec<String>,
    queues: Vec<EventQueue>,
}

impl OrderedCache {
    /// The aliases, in the order in which they were registered.
    pub closed spec fn aliases(&self) -> Seq<Seq<char>> {
        key_views(self.aliases@)
    }

    /// The state of the queue in the slot `at`.
    pub closed spec fn slot(&self, at: int) -> QueueView {
        self.queues@[at]@
    }

    /// Whether `alias` is registered.
    pub open spec fn has(&self, alias: Seq<char>) -> bool {
        self.aliases().contains(alias)
    }

    /// The state of the queue of `alias`, which must be registered.
    pub open spec fn queue(&self, alias: Seq<char>) -> QueueView
        recommends
            self.has(alias),
    {
        self.slot(seek(self.aliases(), alias, 0) as int)
    }

    /// Each alias is registered once and has a well-formed queue.
    pub closed spec fn wf(&self) -> bool {
        &&& self.aliases@.len() == self.queues@.len()
        &&& self.aliases().no_duplicates()
        &&& forall|i: int| 0 <= i < self.queues@.len() ==> (#[trigger] self.queues@[i]).wf()
    }

    /// The queue of every registered alias is well-formed: no fingerprint is
    /// queued twice in it, and it holds payloads for queued fingerprints only.
    pub proof fn lemma_queue_wf(&self, alias: Seq<char>)
        requires
            self.wf(),
            self.has(alias),
        ensures
            self.queue(alias).wf(),
    {
        lemma_seek(self.aliases(), alias, 0);
        let at = seek(self.aliases(), alias, 0) as int;
        if at >= self.aliases().len() {
            let w = choose|w: int| 0 <= w < self.aliases().len() && self.aliases()[w] == alias;
            assert(self.aliases()[w] != alias);
        }
        self.queues@[at].lemma_view_wf();
    }

    /// No alias is registered twice.
    pub proof fn lemma_aliases_distinct(&self)
        requires
            self.wf(),
        ensures
            self.aliases().no_duplicates(),
    {
    }

    /// Whether `other` has the same aliases and, but for the queue of
    /// `alias`, the same queues.
    pub open spec fn same_but(&self, other: &OrderedCache, alias: Seq<char>) -> bool {
        &&& other.aliases() == self.aliases()
        &&& forall|a: Seq<char>| self.has(a) && a != alias ==> other.queue(a) == self.queue(a)
    }

    /// Whether `other` has the same aliases and queues.
    pub open spec fn same_as(&self, other: &OrderedCache) -> bool {
        &&& other.aliases() == self.aliases()
        &&& forall|a: Seq<char>| self.has(a) ==> other.queue(a) == self.queue(a)
    }

    /// The slot of `alias`, if it is registered.
    fn position(&self, alias: &str) -> (found: Option<usize>)
        requires
            self.wf(),
        ensures
            match found {
                Some(at) => at < self.aliases().len() && at == seek(self.aliases(), alias@, 0)
                    && self.aliases()[at as int] == alias@ && self.has(alias@),
                None => !self.has(alias@),
            },
    {
        let wanted = alias.to_owned();
        let ghost names = self.aliases();
        let mut at: usize = 0;
        while at < self.aliases.len()
            invariant
                at <= self.aliases.len(),
                names == key_views(self.aliases@),
                wanted@ == alias@,
                seek(names, alias@, 0) == seek(names, alias@, at as nat),
                forall|j: int| 0 <= j < at ==> names[j] != alias@,
            decreases self.aliases.len() - at,
        {
            assert(names[at as int] == self.aliases@[at as int]@);
            if self.aliases[at] == wanted {
                return Some(at);
            }
            at += 1;
        }
        None
    }

    /// Whether `alias` is registered.
    pub fn has_alias(&self, alias: &str) -> (known: bool)
        requires
            self.wf(),
        ensures
            known == self.has(alias@),
    {
        self.position(alias).is_some()
    }

    /// The registered aliases, in the order in which they were registered.
    pub fn get_aliases(&self) -> (names: Vec<String>)
        requires
            self.wf(),
        ensures
            key_views(names@) == self.aliases(),
            key_views(names@).no_duplicates(),
    {
        let mut names: Vec<String> = Vec::new();
        let mut at: usize = 0;
        while at < self.aliases.len()
            invariant
                at <= self.aliases.len(),
                names.len() == at,
                key_views(names@) == key_views(self.aliases@).take(at as int),
            decreases self.aliases.len() - at,
        {
            let ghost copied = key_views(names@);
            names.push(self.aliases[at].clone());
            assert forall|i: int| 0 <= i < at + 1 implies key_views(names@)[i] == key_views(
                self.aliases@,
            )[i] by {
                if i < at {
                    assert(key_views(names@)[i] == copied[i]);
                }
            }
            assert(key_views(names@) =~= key_views(self.aliases@).take(at + 1));
            at += 1;
        }
        assert(key_views(self.aliases@).take(at as int) =~= key_views(self.aliases@));
        names
    }
}

impl OrderedCache {
    /// Queues `value` under the fingerprint `key` for `alias`.
    ///
    /// The event goes to the back of the alias's queue unless its fingerprint
    /// was seen recently, in which case nothing is queued. Both count as
    /// success.
    pub fn insert(
        &mut self,
        alias: &str,
        key: String,
        value: Vec<u8>,
    ) -> (done: Result<(), CacheError>)
        requires
            old(self).wf(),
        ensures
            final(self).wf(),
            done is Ok <==> old(self).has(alias@),
            done is Err ==> done == Err::<(), CacheError>(CacheError::AliasNotFound) && old(
                self,
            ).same_as(final(self)),
            done is Ok ==> old(self).same_but(final(self), alias@),
            done is Ok ==> old(self).queue(alias@).fades_to(final(self).queue(alias@)) || old(
                self,
            ).queue(alias@).queued_as(final(self).queue(alias@), key@, value@),
            done is Ok && !old(self).queue(alias@).recent.contains(key@) ==> old(self).queue(
                alias@,
            ).queued_as(final(self).queue(alias@), key@, value@),
    {
        match self.position(alias) {
            None => Err(CacheError::AliasNotFound),
            Some(at) => {
                let _ = self.queues[at].insert(key, value);
                proof {
                    self.lemma_slot_changed(old(self), at as int);
                }
                Ok(())
            },
        }
    }

    /// A change to the queue in one slot leaves the queues of the other
    /// aliases as they were.
    proof fn lemma_slot_changed(&self, before: &OrderedCache, at: int)
        requires
            before.wf(),
            0 <= at < before.queues@.len(),
            self.aliases@ == before.aliases@,
            self.queues@.len() == before.queues@.len(),
            forall|i: int|
                0 <= i < self.queues@.len() && i != at ==> self.queues@[i] == before.queues@[i],
            self.queues@[at].wf(),
        ensures
            self.wf(),
            before.same_but(self, before.aliases()[at]),
            self.queue(before.aliases()[at]) == self.queues@[at]@,
            before.queue(before.aliases()[at]) == before.queues@[at]@,
    {
        let names = before.aliases();
        lemma_seek(names, names[at], 0);
        assert(seek(names, names[at], 0) == at);
        assert forall|a: Seq<char>| before.has(a) && a != names[at] implies self.queue(a)
            == before.queue(a) by {
            lemma_seek(names, a, 0);
        }
    }
}

impl OrderedCache {
    /// Looks up the payload queued for `alias` under the fingerprint `key`.
    /// No order changes. An unknown alias has no payloads.
    pub fn get(&mut self, alias: &str, key: &str) -> (found: Option<Vec<u8>>)
        requires
            old(self).wf(),
        ensures
            final(self).wf(),
            !old(self).has(alias@) ==> found is None && old(self).same_as(final(self)),
            old(self).has(alias@) ==> old(self).same_but(final(self), alias@) && old(self).queue(
                alias@,
            ).fades_to(final(self).queue(alias@)) && match found {
                Some(value) => final(self).queue(alias@).held.contains_pair(key@, value@),
                None => !final(self).queue(alias@).held.contains_key(key@),
            },
    {
        match self.position(alias) {
            None => None,
            Some(at) => {
                let found = self.queues[at].get(key);
                proof {
                    self.lemma_slot_changed(old(self), at as int);
                }
                found
            },
        }
    }

    /// Takes up to `n` events out of the queue of `alias`, oldest first if
    /// `oldest`, else newest first.
    pub fn remove(
        &mut self,
        alias: &str,
        n: usize,
        oldest: bool,
    ) -> (taken: Result<Vec<(String, Vec<u8>)>, CacheError>)
        requires
            old(self).wf(),
        ensures
            final(self).wf(),
            match taken {
                Ok(events) => old(self).has(alias@) && old(self).same_but(final(self), alias@)
                    && old(self).queue(alias@).drains_to(
                    final(self).queue(alias@),
                    n as nat,
                    pair_views(events@),
                    oldest,
                ) && keys_of(pair_views(events@)).no_duplicates(),
                Err(why) => !old(self).has(alias@) && why == CacheError::AliasNotFound && old(
                    self,
                ).same_as(final(self)),
            },
    {
        match self.position(alias) {
            None => Err(CacheError::AliasNotFound),
            Some(at) => {
                let events = self.queues[at].drain(n, oldest);
                proof {
                    self.lemma_slot_changed(old(self), at as int);
                }
                Ok(events)
            },
        }
    }

    /// Takes up to `n` events out of the queue of `alias`, oldest first. A
    /// fingerprint whose payload has expired is dropped and does not count.
    pub fn remove_oldest(
        &mut self,
        alias: &str,
        n: usize,
    ) -> (taken: Result<Vec<(String, Vec<u8>)>, CacheError>)
        requires
            old(self).wf(),
        ensures
            final(self).wf(),
            match taken {
                Ok(events) => old(self).has(alias@) && old(self).same_but(final(self), alias@)
                    && old(self).queue(alias@).drains_to(
                    final(self).queue(alias@),
                    n as nat,
                    pair_views(events@),
                    true,
                ) && keys_of(pair_views(events@)).no_duplicates(),
                Err(why) => !old(self).has(alias@) && why == CacheError::AliasNotFound && old(
                    self,
                ).same_as(final(self)),
            },
    {
        self.remove(alias, n, true)
    }

    /// Takes up to `n` events out of the queue of `alias`, newest first. A
    /// fingerprint whose payload has expired is dropped and does not count.
    pub fn remove_newest(
        &mut self,
        alias: &str,
        n: usize,
    ) -> (taken: Result<Vec<(String, Vec<u8>)>, CacheError>)
        requires
            old(self).wf(),
        ensures
            final(self).wf(),
            match taken {
                Ok(events) => old(self).has(alias@) && old(self).same_but(final(self), alias@)
                    && old(self).queue(alias@).drains_to(
                    final(self).queue(alias@),
                    n as nat,
                    pair_views(events@),
                    false,
                ) && keys_of(pair_views(events@)).no_duplicates(),
                Err(why) => !old(self).has(alias@) && why == CacheError::AliasNotFound && old(
                    self,
                ).same_as(final(self)),
            },
    {
        self.remove(alias, n, false)
    }
}

/// The first occurrences hold exactly the elements of `names`.
pub proof fn lemma_first_occurrences_has(names: Seq<Seq<char>>, a: Seq<char>)
    ensures
        first_occurrences(names).contains(a) <==> names.contains(a),
    decreases names.len(),
{
    if names.len() > 0 {
        let init = names.drop_last();
        let before = first_occurrences(init);
        let all = first_occurrences(names);
        lemma_first_occurrences_has(init, a);
        lemma_first_occurrences_has(init, names.last());
        if all.contains(a) {
            let i = choose|i: int| 0 <= i < all.len() && all[i] == a;
            if i < before.len() {
                assert(before[i] == a);
                assert(before.contains(a));
                let j = choose|j: int| 0 <= j < init.len() && init[j] == a;
                assert(names[j] == a);
            } else {
                assert(names[names.len() - 1] == a);
            }
        }
        if names.contains(a) {
            let j = choose|j: int| 0 <= j < names.len() && names[j] == a;
            if j < init.len() {
                assert(init[j] == a);
                assert(init.contains(a));
                let i = choose|i: int| 0 <= i < before.len() && before[i] == a;
                assert(all[i] == a);
            } else if !before.contains(a) {
                assert(all[before.len() as int] == a);
            } else {
                let i = choose|i: int| 0 <= i < before.len() && before[i] == a;
                assert(all[i] == a);
            }
        }
    }
}

impl OrderedCache {
    /// Registers `alias` with an empty queue whose events live `ttl_seconds`
    /// at most, unless it is registered already. Returns whether the alias
    /// was added. The queues of the other aliases are left as they are.
    pub fn add_alias(&mut self, alias: String, ttl_seconds: u64) -> (added: bool)
        requires
            old(self).wf(),
            ttl_seconds <= MAX_TTL_SECONDS,
        ensures
            final(self).wf(),
            added == !old(self).has(alias@),
            final(self).aliases() == if added {
                old(self).aliases().push(alias@)
            } else {
                old(self).aliases()
            },
            added ==> final(self).queue(alias@) == QueueView::fresh(ttl_seconds as nat),
            forall|a: Seq<char>| old(self).has(a) ==> final(self).queue(a) == old(self).queue(a),
    {
        if self.position(alias.as_str()).is_some() {
            return false;
        }
        let ghost names = self.aliases();
        self.aliases.push(alias);
        self.queues.push(EventQueue::new(ttl_seconds));
        proof {
            let grown = self.aliases();
            assert(grown == names.push(alias@));
            assert forall|i: int, j: int| 0 <= i < j < grown.len() implies grown[i] != grown[j] by {
                assert(grown[i] == names[i]);
                if j < names.len() {
                    assert(grown[j] == names[j]);
                }
            }
            lemma_seek(grown, alias@, 0);
            assert(grown[names.len() as int] == alias@);
            assert forall|a: Seq<char>| old(self).has(a) implies self.queue(a) == old(self).queue(
                a,
            ) by {
                lemma_seek(names, a, 0);
                lemma_seek(grown, a, 0);
                let at = seek(names, a, 0) as int;
                assert(grown[at] == names[at]);
                if seek(grown, a, 0) < at {
                    assert(names[seek(grown, a, 0) as int] == grown[seek(grown, a, 0) as int]);
                }
            }
        }
        true
    }

    /// A registry with an empty queue for each of `aliases`, whose events
    /// live `ttl_seconds` at most. An alias that is named more than once is
    /// registered once.
    pub fn new(aliases: Vec<String>, ttl_seconds: u64) -> (cache: OrderedCache)
        requires
            ttl_seconds <= MAX_TTL_SECONDS,
        ensures
            cache.wf(),
            cache.aliases() == first_occurrences(key_views(aliases@)),
            forall|a: Seq<char>| cache.has(a) <==> key_views(aliases@).contains(a),
            forall|a: Seq<char>| cache.has(a) ==> cache.queue(a) == QueueView::fresh(ttl_seconds as nat),
    {
        let mut cache = OrderedCache { aliases: Vec::new(), queues: Vec::new() };
        let ghost given = key_views(aliases@);
        assert(cache.aliases() =~= first_occurrences(given.take(0)));
        let mut at: usize = 0;
        while at < aliases.len()
            invariant
                at <= aliases.len(),
                ttl_seconds <= MAX_TTL_SECONDS,
                given == key_views(aliases@),
                cache.wf(),
                cache.aliases() == first_occurrences(given.take(at as int)),
                forall|a: Seq<char>| cache.has(a) ==> cache.queue(a) == QueueView::fresh(ttl_seconds as nat),
            decreases aliases.len() - at,
        {
            let ghost upto = given.take(at + 1);
            assert(upto.drop_last() == given.take(at as int));
            assert(upto.last() == aliases@[at as int]@);
            let ghost before = cache;
            let _ = cache.add_alias(aliases[at].clone(), ttl_seconds);
            assert forall|a: Seq<char>| cache.has(a) implies cache.queue(a)
                == QueueView::fresh(ttl_seconds as nat) by {
                if before.has(a) {
                } else {
                    let names = cache.aliases();
                    let i = choose|i: int| 0 <= i < names.len() && names[i] == a;
                    if i < before.aliases().len() {
                        assert(before.aliases()[i] == a);
                    }
                }
            }
            at += 1;
        }
        assert(given.take(at as int) == given);
        proof {
            assert forall|a: Seq<char>| cache.has(a) <==> given.contains(a) by {
                lemma_first_occurrences_has(given, a);
            }
        }
        cache
    }
}

} // verus!
