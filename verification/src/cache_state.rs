//! The mathematical model of the cache, and the laws that hold of it.

use vstd::prelude::*;

use crate::arith::{law_wrap_i64_is_congruent, lemma_wrap_i64_fits, wrap_i64};
use crate::cache_key::{
    cache_key, find, law_key_of_key, law_one_key_per_file, law_prefixes_do_not_matter,
    TRACE_ID_SEPARATOR,
};
use crate::entry::{MetaTexts, Record, SourceEntry};
use crate::entry_size::{entry_bytes, entry_size, law_entry_size_exact};

verus! {

/// The bytes that all records together are charged with.
pub open spec fn total_size(records: Map<Seq<char>, Record>) -> nat
    decreases records.dom().len(),
{
    if records.dom().finite() && records.dom().len() > 0 {
        let key = records.dom().choose();
        records[key].1 as nat + total_size(records.remove(key))
    } else {
        0
    }
}

/// How many of `queued` keys one round of eviction takes: a twentieth, but at least one.
pub open spec fn batch_size(queued: nat) -> nat {
    if queued / 20 > 1 {
        queued / 20
    } else {
        1
    }
}

/// The state of a cache.
#[verifier::ext_equal]
pub struct CacheState {
    /// The record under each key.
    pub records: Map<Seq<char>, Record>,
    /// The keys in the order in which they are evicted, oldest first. A key that was removed may
    /// still stand here, and one that was put in again then stands here twice.
    pub queue: Seq<Seq<char>>,
    /// The counter of the bytes in use.
    pub memory: i64,
}

impl CacheState {
    /// A cache that holds nothing.
    pub open spec fn empty() -> CacheState {
        CacheState { records: Map::empty(), queue: Seq::empty(), memory: 0 }
    }

    /// The records are finitely many, each of them can be evicted, and each stands under the key of
    /// a file, which is its own key.
    pub open spec fn wf(self) -> bool {
        &&& self.records.dom().finite()
        &&& forall|key: Seq<char>| #[trigger]
            self.records.contains_key(key) ==> self.queue.contains(key)
        &&& forall|key: Seq<char>| #[trigger]
            self.records.contains_key(key) ==> cache_key(key) == key
    }

    /// The files that are cached: the keys of the paths at which an entry is found.
    pub open spec fn files(self) -> Set<Seq<char>> {
        Set::new(
            |key: Seq<char>|
                exists|path: Seq<char>| #[trigger]
                    cache_key(path) == key && self.entry_at(path) is Some,
        )
    }

    /// The counter says exactly what the records are charged with.
    pub open spec fn exact(self) -> bool {
        self.memory == total_size(self.records)
    }

    /// What the record under `key` is charged with, or zero.
    pub open spec fn charged(self, key: Seq<char>) -> int {
        if self.records.contains_key(key) {
            self.records[key].1 as int
        } else {
            0
        }
    }

    /// The state with `record` under `key`, before any eviction. Only a new key is queued.
    pub open spec fn stored(self, key: Seq<char>, record: Record) -> CacheState {
        CacheState {
            records: self.records.insert(key, record),
            queue: if self.records.contains_key(key) {
                self.queue
            } else {
                self.queue.push(key)
            },
            memory: wrap_i64(self.memory + record.1 - self.charged(key)),
        }
    }

    /// The state without the record under `key`. The key stays queued.
    pub open spec fn removed(self, key: Seq<char>) -> CacheState {
        CacheState {
            records: self.records.remove(key),
            queue: self.queue,
            memory: wrap_i64(self.memory - self.charged(key)),
        }
    }

    /// The entry cached for the file at `path`.
    pub open spec fn entry_at(self, path: Seq<char>) -> Option<SourceEntry> {
        let key = cache_key(path);
        if self.records.contains_key(key) {
            Some(self.records[key].0)
        } else {
            None
        }
    }

    /// The record that is kept for an entry at `path` with the metadata `meta`, whose footer reports
    /// `reported` bytes.
    pub open spec fn record_for(
        path: Seq<char>,
        value: SourceEntry,
        meta: MetaTexts,
        reported: usize,
    ) -> Record {
        (value, entry_size(cache_key(path), meta, reported))
    }

    /// The state after an entry with the metadata `meta`, whose footer reports `reported` bytes, was
    /// stored for the file at `path`, before any eviction.
    pub open spec fn after_store(
        self,
        path: Seq<char>,
        value: SourceEntry,
        meta: MetaTexts,
        reported: usize,
    ) -> CacheState {
        self.stored(cache_key(path), CacheState::record_for(path, value, meta, reported))
    }

    /// The state after such an entry was put in under a budget of `max_bytes`.
    pub open spec fn after_put(
        self,
        path: Seq<char>,
        value: SourceEntry,
        meta: MetaTexts,
        reported: usize,
        max_bytes: usize,
    ) -> CacheState {
        self.after_store(path, value, meta, reported).evicted(wrap_i64(max_bytes as int))
    }

    /// The keys at the front of the queue.
    pub open spec fn oldest(self, count: nat) -> Set<Seq<char>> {
        self.queue.take(count as int).to_set()
    }

    /// The state after the `count` keys at the front of the queue were dropped with their records.
    pub open spec fn without_oldest(self, count: nat) -> CacheState {
        let freed = wrap_i64(total_size(self.records.restrict(self.oldest(count))) as int);
        CacheState {
            records: self.records.remove_keys(self.oldest(count)),
            queue: self.queue.skip(count as int),
            memory: if freed > 0 {
                wrap_i64(self.memory - freed)
            } else {
                self.memory
            },
        }
    }

    /// The state after eviction: batches of the oldest keys are dropped for as long as the counter
    /// is over `limit` and a key is queued.
    pub open spec fn evicted(self, limit: i64) -> CacheState
        decreases self.queue.len(),
    {
        if self.memory > limit && self.queue.len() > 0 {
            self.without_oldest(batch_size(self.queue.len())).evicted(limit)
        } else {
            self
        }
    }
}

/// A record's charge is part of the total.
pub proof fn lemma_total_remove(records: Map<Seq<char>, Record>, key: Seq<char>)
    requires
        records.dom().finite(),
        records.contains_key(key),
    ensures
        total_size(records) == records[key].1 + total_size(records.remove(key)),
    decreases records.dom().len(),
{
    let first = records.dom().choose();
    assert(records.dom().len() > 0) by {
        if records.dom().len() == 0 {
            assert(records.dom() =~= Set::empty());
        }
    }
    if first != key {
        lemma_total_remove(records.remove(first), key);
        lemma_total_remove(records.remove(key), first);
        assert(records.remove(first).remove(key) =~= records.remove(key).remove(first));
    }
}

/// The total after a record was put under a key.
pub proof fn lemma_total_insert(records: Map<Seq<char>, Record>, key: Seq<char>, record: Record)
    requires
        records.dom().finite(),
    ensures
        total_size(records.insert(key, record)) == record.1 + total_size(records.remove(key)),
{
    lemma_total_remove(records.insert(key, record), key);
    assert(records.insert(key, record).remove(key) =~= records.remove(key));
}

/// The total falls apart into what a set of keys is charged with and the rest.
pub proof fn lemma_total_split(records: Map<Seq<char>, Record>, keys: Set<Seq<char>>)
    requires
        records.dom().finite(),
    ensures
        total_size(records) == total_size(records.restrict(keys)) + total_size(
            records.remove_keys(keys),
        ),
    decreases records.dom().len(),
{
    if records.dom().len() == 0 {
        assert(records.dom() =~= Set::empty());
        assert(records.restrict(keys) =~= records);
        assert(records.remove_keys(keys) =~= records);
    } else {
        let key = records.dom().choose();
        let rest = records.remove(key);
        lemma_total_split(rest, keys);
        if keys.contains(key) {
            assert(records.restrict(keys).dom().subset_of(records.dom()));
            assert(records.restrict(keys).dom().finite());
            lemma_total_remove(records.restrict(keys), key);
            assert(records.restrict(keys).remove(key) =~= rest.restrict(keys));
            assert(records.remove_keys(keys) =~= rest.remove_keys(keys));
        } else {
            assert(records.remove_keys(keys).dom().subset_of(records.dom()));
            lemma_total_remove(records.remove_keys(keys), key);
            assert(records.remove_keys(keys).remove(key) =~= rest.remove_keys(keys));
            assert(records.restrict(keys) =~= rest.restrict(keys));
        }
    }
}

impl CacheState {
    /// Storing a record under the key of a file keeps the cache well formed.
    pub proof fn lemma_stored_wf(self, key: Seq<char>, record: Record)
        requires
            self.wf(),
            cache_key(key) == key,
        ensures
            self.stored(key, record).wf(),
    {
        let after = self.stored(key, record);
        assert forall|other: Seq<char>| #[trigger]
            after.records.contains_key(other) implies after.queue.contains(other) by {
            if self.records.contains_key(other) {
                let i = choose|i: int| 0 <= i < self.queue.len() && self.queue[i] == other;
                assert(after.queue[i] == other);
            } else {
                assert(after.queue[self.queue.len() as int] == other);
            }
        }
    }

    /// Removing a record keeps the cache well formed.
    pub proof fn lemma_removed_wf(self, key: Seq<char>)
        requires
            self.wf(),
        ensures
            self.removed(key).wf(),
    {
        assert forall|other: Seq<char>| #[trigger]
            self.removed(key).records.contains_key(other) implies self.queue.contains(other) by {
            assert(self.records.contains_key(other));
        }
    }

    /// Dropping the oldest keys keeps the cache well formed.
    pub proof fn lemma_without_oldest_wf(self, count: nat)
        requires
            self.wf(),
            count <= self.queue.len(),
        ensures
            self.without_oldest(count).wf(),
    {
        let after = self.without_oldest(count);
        assert(after.records.dom().subset_of(self.records.dom()));
        assert forall|key: Seq<char>| #[trigger]
            after.records.contains_key(key) implies after.queue.contains(key) by {
            let i = choose|i: int| 0 <= i < self.queue.len() && self.queue[i] == key;
            if i < count {
                assert(self.queue.take(count as int)[i] == key);
            } else {
                assert(after.queue[i - count] == key);
            }
        }
    }
}

// Laws of eviction.

/// Dropping keys twice drops them together, as far as the records and the queue go.
proof fn lemma_without_oldest_twice(state: CacheState, first: nat, second: nat)
    requires
        first + second <= state.queue.len(),
    ensures
        state.without_oldest(first).without_oldest(second).records == state.records.remove_keys(
            state.oldest(first + second),
        ),
        state.without_oldest(first).without_oldest(second).queue == state.queue.skip(
            (first + second) as int,
        ),
{
    let between = state.without_oldest(first);
    let both = (first + second) as int;
    assert(between.queue.skip(second as int) =~= state.queue.skip(both));
    assert forall|key: Seq<char>|
        state.oldest(first + second).contains(key) == (state.oldest(first).contains(key)
            || between.oldest(second).contains(key)) by {
        if state.oldest(first + second).contains(key) {
            let i = choose|i: int| 0 <= i < both && state.queue.take(both)[i] == key;
            if i < first {
                assert(state.queue.take(first as int)[i] == key);
            } else {
                assert(between.queue.take(second as int)[i - first] == key);
            }
        }
        if state.oldest(first).contains(key) {
            let i = choose|i: int| 0 <= i < first && state.queue.take(first as int)[i] == key;
            assert(state.queue.take(both)[i] == key);
        }
        if between.oldest(second).contains(key) {
            let i = choose|i: int|
                0 <= i < second && between.queue.take(second as int)[i] == key;
            assert(state.queue.take(both)[first + i] == key);
        }
    }
    assert(between.without_oldest(second).records =~= state.records.remove_keys(
        state.oldest(first + second),
    ));
}

/// Eviction takes the oldest first: what is gone is the front of the queue, with the records under
/// its keys, and nothing else. Within the limit nothing is gone.
pub proof fn law_eviction_takes_the_oldest(state: CacheState, limit: i64) -> (count: nat)
    ensures
        count <= state.queue.len(),
        state.evicted(limit).queue == state.queue.skip(count as int),
        state.evicted(limit).records == state.records.remove_keys(state.oldest(count)),
        state.memory <= limit ==> count == 0 && state.evicted(limit) == state,
        state.evicted(limit).memory <= limit || count == state.queue.len(),
    decreases state.queue.len(),
{
    if state.memory > limit && state.queue.len() > 0 {
        let first = batch_size(state.queue.len());
        let second = law_eviction_takes_the_oldest(state.without_oldest(first), limit);
        lemma_without_oldest_twice(state, first, second);
        let between = state.without_oldest(first);
        assert(between.without_oldest(second).records == between.records.remove_keys(
            between.oldest(second),
        ));
        first + second
    } else {
        assert(state.queue.skip(0) =~= state.queue);
        assert(state.oldest(0) =~= Set::empty());
        assert(state.records.remove_keys(state.oldest(0)) =~= state.records);
        0
    }
}

/// Eviction keeps the cache well formed.
pub proof fn law_eviction_keeps_wf(state: CacheState, limit: i64)
    requires
        state.wf(),
    ensures
        state.evicted(limit).wf(),
    decreases state.queue.len(),
{
    if state.memory > limit && state.queue.len() > 0 {
        let first = batch_size(state.queue.len());
        state.lemma_without_oldest_wf(first);
        law_eviction_keeps_wf(state.without_oldest(first), limit);
    }
}

/// Dropping the oldest keys keeps an exact counter exact.
pub proof fn lemma_without_oldest_exact(state: CacheState, count: nat)
    requires
        state.wf(),
        state.exact(),
    ensures
        state.without_oldest(count).exact(),
{
    lemma_total_split(state.records, state.oldest(count));
    let freed = total_size(state.records.restrict(state.oldest(count))) as int;
    lemma_wrap_i64_fits(freed);
    lemma_wrap_i64_fits(state.memory - freed);
}

/// Eviction keeps an exact counter exact, and brings it down to the limit, or to zero under a limit
/// that is negative.
pub proof fn law_eviction_meets_the_limit(state: CacheState, limit: i64)
    requires
        state.wf(),
        state.exact(),
    ensures
        state.evicted(limit).exact(),
        state.evicted(limit).memory <= limit || state.evicted(limit).memory == 0,
    decreases state.queue.len(),
{
    if state.memory > limit {
        if state.queue.len() > 0 {
            let first = batch_size(state.queue.len());
            state.lemma_without_oldest_wf(first);
            lemma_without_oldest_exact(state, first);
            law_eviction_meets_the_limit(state.without_oldest(first), limit);
        } else {
            assert forall|key: Seq<char>| !state.records.contains_key(key) by {
                assert(!state.queue.contains(key));
            }
            assert(state.records.dom() =~= Set::empty());
        }
    }
}

// Laws of the counter.

/// The counter of an empty cache is exact.
pub proof fn law_empty_is_exact()
    ensures
        CacheState::empty().exact(),
        CacheState::empty().wf(),
{
}

/// Storing a record keeps an exact counter exact, for as long as it can count that far: what the
/// record replaces is not counted any more.
pub proof fn law_storing_is_exact(state: CacheState, key: Seq<char>, record: Record)
    requires
        state.wf(),
        state.exact(),
        state.memory - state.charged(key) + record.1 <= i64::MAX,
    ensures
        state.stored(key, record).exact(),
        state.stored(key, record).memory == state.memory - state.charged(key) + record.1,
{
    lemma_total_insert(state.records, key, record);
    if state.records.contains_key(key) {
        lemma_total_remove(state.records, key);
    } else {
        assert(state.records.remove(key) =~= state.records);
    }
    lemma_wrap_i64_fits(state.memory + record.1 - state.charged(key));
}

/// Removing a record keeps an exact counter exact.
pub proof fn law_removing_is_exact(state: CacheState, key: Seq<char>)
    requires
        state.wf(),
        state.exact(),
    ensures
        state.removed(key).exact(),
        state.removed(key).memory == state.memory - state.charged(key),
{
    if state.records.contains_key(key) {
        lemma_total_remove(state.records, key);
    } else {
        assert(state.records.remove(key) =~= state.records);
    }
    lemma_wrap_i64_fits(state.memory - state.charged(key));
}

/// After an entry was put in, the counter is exact and within the budget.
pub proof fn law_put_keeps_the_budget(
    state: CacheState,
    path: Seq<char>,
    value: SourceEntry,
    meta: MetaTexts,
    reported: usize,
    max_bytes: usize,
)
    requires
        state.wf(),
        state.exact(),
        state.memory - state.charged(cache_key(path)) + CacheState::record_for(
            path,
            value,
            meta,
            reported,
        ).1 <= i64::MAX,
    ensures
        state.after_put(path, value, meta, reported, max_bytes).exact(),
        state.after_put(path, value, meta, reported, max_bytes).memory <= max_bytes,
{
    let key = cache_key(path);
    let record = CacheState::record_for(path, value, meta, reported);
    law_storing_is_exact(state, key, record);
    law_key_of_key(path);
    state.lemma_stored_wf(key, record);
    law_eviction_meets_the_limit(state.stored(key, record), wrap_i64(max_bytes as int));
}

/// Putting an entry in is storing it and then, only where more than the budget is in use, evicting.
pub proof fn law_put_is_store_then_evict(
    state: CacheState,
    path: Seq<char>,
    value: SourceEntry,
    meta: MetaTexts,
    reported: usize,
    max_bytes: usize,
)
    ensures
        ({
            let stored = state.after_store(path, value, meta, reported);
            let limit = wrap_i64(max_bytes as int);
            state.after_put(path, value, meta, reported, max_bytes) == (if stored.memory > limit {
                stored.evicted(limit)
            } else {
                stored
            })
        }),
{
}

// Laws of reading and writing.

/// An entry that was put in within the budget is found, and every other entry is as it was.
pub proof fn law_get_after_put(
    state: CacheState,
    path: Seq<char>,
    value: SourceEntry,
    meta: MetaTexts,
    reported: usize,
    max_bytes: usize,
    other: Seq<char>,
)
    requires
        state.after_store(path, value, meta, reported).memory <= wrap_i64(max_bytes as int),
    ensures
        state.after_put(path, value, meta, reported, max_bytes).entry_at(path) == Some(value),
        cache_key(other) == cache_key(path) ==> state.after_put(
            path,
            value,
            meta,
            reported,
            max_bytes,
        ).entry_at(other) == Some(value),
        cache_key(other) != cache_key(path) ==> state.after_put(
            path,
            value,
            meta,
            reported,
            max_bytes,
        ).entry_at(other) == state.entry_at(other),
{
}

/// Whatever the budget, what is found after an entry was put in is that entry, or what was there
/// before, or nothing where it was evicted.
pub proof fn law_get_after_put_and_eviction(
    state: CacheState,
    path: Seq<char>,
    value: SourceEntry,
    meta: MetaTexts,
    reported: usize,
    max_bytes: usize,
    other: Seq<char>,
)
    ensures
        ({
            let found = state.after_put(path, value, meta, reported, max_bytes).entry_at(other);
            found is None || found == (if cache_key(other) == cache_key(path) {
                Some(value)
            } else {
                state.entry_at(other)
            })
        }),
{
    let stored = state.after_store(path, value, meta, reported);
    let count = law_eviction_takes_the_oldest(stored, wrap_i64(max_bytes as int));
}

/// The entry that was just put in is evicted last: under a key that was not queued before, it is
/// only gone where everything is.
pub proof fn law_newest_is_evicted_last(
    state: CacheState,
    path: Seq<char>,
    value: SourceEntry,
    meta: MetaTexts,
    reported: usize,
    max_bytes: usize,
)
    requires
        state.wf(),
        !state.queue.contains(cache_key(path)),
    ensures
        ({
            let after = state.after_put(path, value, meta, reported, max_bytes);
            after.entry_at(path) == Some(value) || after.records == Map::<
                Seq<char>,
                Record,
            >::empty() && after.queue.len() == 0
        }),
{
    let key = cache_key(path);
    let stored = state.stored(key, CacheState::record_for(path, value, meta, reported));
    let count = law_eviction_takes_the_oldest(stored, wrap_i64(max_bytes as int));
    assert(!state.records.contains_key(key));
    let after = state.after_put(path, value, meta, reported, max_bytes);
    law_key_of_key(path);
    state.lemma_stored_wf(key, CacheState::record_for(path, value, meta, reported));
    law_eviction_keeps_wf(stored, wrap_i64(max_bytes as int));
    if stored.oldest(count).contains(key) {
        let i = choose|i: int| 0 <= i < count && stored.queue.take(count as int)[i] == key;
        assert(i == state.queue.len()) by {
            if i < state.queue.len() {
                assert(state.queue[i] == key);
            }
        }
        assert forall|k: Seq<char>| !after.records.contains_key(k) by {
            assert(!after.queue.contains(k));
        }
        assert(after.records =~= Map::<Seq<char>, Record>::empty());
    }
}

/// An entry that was removed is not found, and every other entry is as it was. Where none was
/// cached, nothing changes.
pub proof fn law_get_after_remove(state: CacheState, path: Seq<char>, other: Seq<char>)
    ensures
        state.removed(cache_key(path)).entry_at(path) is None,
        cache_key(other) != cache_key(path) ==> state.removed(cache_key(path)).entry_at(other)
            == state.entry_at(other),
        state.entry_at(path) is None ==> state.removed(cache_key(path)) == state,
{
    lemma_wrap_i64_fits(state.memory as int);
    if state.entry_at(path) is None {
        assert(state.removed(cache_key(path)) =~= state);
    }
}

/// Removing what was just put in leaves the records and the counter as they were before.
pub proof fn law_remove_undoes_put(
    state: CacheState,
    path: Seq<char>,
    value: SourceEntry,
    meta: MetaTexts,
    reported: usize,
    max_bytes: usize,
)
    requires
        state.entry_at(path) is None,
        state.after_store(path, value, meta, reported).memory <= wrap_i64(max_bytes as int),
    ensures
        ({
            let put = state.after_put(path, value, meta, reported, max_bytes);
            let after = put.removed(cache_key(path));
            after.records == state.records && after.memory == state.memory
        }),
{
    let key = cache_key(path);
    let after = state.after_put(path, value, meta, reported, max_bytes).removed(key);
    assert(after.records =~= state.records);
    lemma_wrap_i64_fits(state.memory as int);
    let size = CacheState::record_for(path, value, meta, reported).1;
    assert(after.memory == wrap_i64(wrap_i64(state.memory + size) - size));
}

/// Putting an entry in again, of the same size, counts and queues nothing twice.
pub proof fn law_overwriting_counts_once(state: CacheState, key: Seq<char>, record: Record)
    requires
        state.wf(),
        state.records.contains_key(key),
        state.records[key].1 == record.1,
    ensures
        state.stored(key, record).memory == state.memory,
        state.stored(key, record).queue == state.queue,
        state.stored(key, record).records.len() == state.records.len(),
{
    lemma_wrap_i64_fits(state.memory as int);
    assert(state.records.insert(key, record).dom() =~= state.records.dom());
}

/// The number of entries: one more after a new key, one less after a key was removed.
pub proof fn law_count_of_entries(state: CacheState, key: Seq<char>, record: Record)
    requires
        state.wf(),
    ensures
        state.stored(key, record).records.len() == state.records.len() + (
        if state.records.contains_key(key) {
            0int
        } else {
            1
        }),
        state.removed(key).records.len() == state.records.len() - (if state.records.contains_key(
            key,
        ) {
            1int
        } else {
            0
        }),
{
}

/// The entries are counted file by file: there are as many as keys of paths at which an entry is
/// found. What was removed or evicted is not among them, and a file that several paths address is
/// there once.
pub proof fn law_entries_are_files(state: CacheState)
    requires
        state.wf(),
    ensures
        state.records.dom() == state.files(),
        state.records.len() == state.files().len(),
{
    assert forall|key: Seq<char>| #[trigger]
        state.records.contains_key(key) implies state.files().contains(key) by {
        assert(cache_key(key) == key && state.entry_at(key) is Some);
    }
    assert(state.records.dom() =~= state.files());
}

/// Two queries that address one file count once: after one of them stored an entry for it, another
/// entry from the other adds none.
pub proof fn law_queries_count_once(
    state: CacheState,
    first: Seq<char>,
    second: Seq<char>,
    one: Record,
    other: Record,
)
    requires
        state.wf(),
        find(first, TRACE_ID_SEPARATOR@) is Some,
        find(second, TRACE_ID_SEPARATOR@) is Some,
        first.skip(find(first, TRACE_ID_SEPARATOR@)->0) == second.skip(
            find(second, TRACE_ID_SEPARATOR@)->0,
        ),
    ensures
        ({
            let stored = state.stored(cache_key(first), one);
            stored.stored(cache_key(second), other).records.len() == stored.records.len()
        }),
{
    law_one_key_per_file(first, second);
    law_key_of_key(first);
    state.lemma_stored_wf(cache_key(first), one);
    law_count_of_entries(state.stored(cache_key(first), one), cache_key(second), other);
}

/// Two queries that address one file share its entry: what one put in within the budget, the other
/// finds. Their paths agree from the first separator on.
pub proof fn law_queries_share_entries(
    state: CacheState,
    first: Seq<char>,
    second: Seq<char>,
    value: SourceEntry,
    meta: MetaTexts,
    reported: usize,
    max_bytes: usize,
)
    requires
        find(first, TRACE_ID_SEPARATOR@) is Some,
        find(second, TRACE_ID_SEPARATOR@) is Some,
        first.skip(find(first, TRACE_ID_SEPARATOR@)->0) == second.skip(
            find(second, TRACE_ID_SEPARATOR@)->0,
        ),
        state.after_store(first, value, meta, reported).memory <= wrap_i64(max_bytes as int),
    ensures
        state.after_put(first, value, meta, reported, max_bytes).entry_at(second) == Some(value),
{
    law_one_key_per_file(first, second);
}

// What each operation does to the records, the queue and the counter.

/// An empty cache holds no record, queues no key and counts no byte.
pub proof fn law_empty_cache(path: Seq<char>)
    ensures
        CacheState::empty().records.dom() == Set::<Seq<char>>::empty(),
        CacheState::empty().queue.len() == 0,
        CacheState::empty().memory == 0,
        CacheState::empty().entry_at(path) is None,
{
}

/// No records are charged with nothing.
pub proof fn law_total_of_nothing()
    ensures
        total_size(Map::empty()) == 0,
{
}

/// One more record adds its charge to the total, whatever the others are.
pub proof fn law_total_of_one_more(
    records: Map<Seq<char>, Record>,
    key: Seq<char>,
    record: Record,
)
    requires
        records.dom().finite(),
        !records.contains_key(key),
    ensures
        total_size(records.insert(key, record)) == total_size(records) + record.1,
{
    lemma_total_insert(records, key, record);
    assert(records.remove(key) =~= records);
}

/// A counter is exact where it equals the sum of the charges.
pub proof fn law_exact_counter(state: CacheState)
    ensures
        state.exact() <==> state.memory == total_size(state.records),
{
}

/// What is found at a path is the entry under the path's key, where a record stands there.
pub proof fn law_entry_under_its_key(state: CacheState, path: Seq<char>)
    ensures
        state.entry_at(path) is Some <==> state.records.contains_key(cache_key(path)),
        state.entry_at(path) is Some ==> state.entry_at(path) == Some(
            state.records[cache_key(path)].0,
        ),
{
}

/// Whatever two queries put before `/$$/`, they find the same of a file.
pub proof fn law_file_is_found_by_every_query(
    state: CacheState,
    first: Seq<char>,
    second: Seq<char>,
    rest: Seq<char>,
)
    requires
        forall|i: int|
            0 <= i < first.len() ==> (#[trigger] (first + "/$$/"@ + rest).skip(i)).take(4)
                != "/$$/"@,
        forall|i: int|
            0 <= i < second.len() ==> (#[trigger] (second + "/$$/"@ + rest).skip(i)).take(4)
                != "/$$/"@,
    ensures
        state.entry_at(first + "/$$/"@ + rest) == state.entry_at(second + "/$$/"@ + rest),
{
    law_prefixes_do_not_matter(first, second, rest);
}

/// Storing an entry puts it under its path's key with its charge, and changes no other record. A new
/// key goes to the end of the queue; one that is there keeps its place.
pub proof fn law_store_puts_one_record(
    state: CacheState,
    path: Seq<char>,
    value: SourceEntry,
    meta: MetaTexts,
    reported: usize,
    other: Seq<char>,
)
    ensures
        ({
            let after = state.after_store(path, value, meta, reported);
            let key = cache_key(path);
            &&& after.records.contains_key(key)
            &&& after.records[key].0 == value
            &&& after.records[key].1 == entry_size(key, meta, reported)
            &&& other != key ==> after.records.contains_key(other) == state.records.contains_key(
                other,
            )
            &&& other != key && state.records.contains_key(other) ==> after.records[other]
                == state.records[other]
            &&& state.records.contains_key(key) ==> after.queue == state.queue
            &&& !state.records.contains_key(key) ==> after.queue == state.queue + seq![key]
        }),
{
    let key = cache_key(path);
    assert(state.queue.push(key) =~= state.queue + seq![key]);
}

/// Storing an entry adds its bytes to the counter and takes off those of the entry that it replaces,
/// as long as the machine can count them.
pub proof fn law_store_counts_the_bytes(
    state: CacheState,
    path: Seq<char>,
    value: SourceEntry,
    meta: MetaTexts,
    reported: usize,
)
    requires
        entry_bytes(cache_key(path), meta, reported) <= usize::MAX,
        !state.records.contains_key(cache_key(path)) ==> state.memory + entry_bytes(
            cache_key(path),
            meta,
            reported,
        ) <= i64::MAX,
        state.records.contains_key(cache_key(path)) ==> i64::MIN <= state.memory + entry_bytes(
            cache_key(path),
            meta,
            reported,
        ) - state.records[cache_key(path)].1 <= i64::MAX,
    ensures
        ({
            let after = state.after_store(path, value, meta, reported);
            let key = cache_key(path);
            let bytes = entry_bytes(key, meta, reported);
            &&& !state.records.contains_key(key) ==> after.memory == state.memory + bytes
            &&& state.records.contains_key(key) ==> after.memory == state.memory + bytes
                - state.records[key].1
        }),
{
    let key = cache_key(path);
    law_entry_size_exact(key, meta, reported);
    lemma_wrap_i64_fits(state.memory + entry_size(key, meta, reported) - state.charged(key));
}

/// The counter after an entry was stored, for every charge: it moves by the new charge less the
/// replaced one, but for a multiple of two to the 64.
pub proof fn law_store_moves_the_counter(
    state: CacheState,
    path: Seq<char>,
    value: SourceEntry,
    meta: MetaTexts,
    reported: usize,
)
    ensures
        ({
            let key = cache_key(path);
            let replaced: int = if state.records.contains_key(key) {
                state.records[key].1 as int
            } else {
                0
            };
            (state.memory + entry_size(key, meta, reported) - replaced - state.after_store(
                path,
                value,
                meta,
                reported,
            ).memory) % 0x1_0000_0000_0000_0000 == 0
        }),
{
    let key = cache_key(path);
    law_wrap_i64_is_congruent(state.memory + entry_size(key, meta, reported) - state.charged(key));
}

/// Removing a key takes its record away, changes no other record, and leaves the queue alone. The
/// counter falls by the record's charge, but for a multiple of two to the 64.
pub proof fn law_remove_takes_one_record(state: CacheState, key: Seq<char>, other: Seq<char>)
    ensures
        !state.removed(key).records.contains_key(key),
        other != key ==> state.removed(key).records.contains_key(other)
            == state.records.contains_key(other),
        other != key && state.records.contains_key(other) ==> state.removed(key).records[other]
            == state.records[other],
        state.removed(key).queue == state.queue,
        state.records.contains_key(key) ==> (state.memory - state.records[key].1 - state.removed(
            key,
        ).memory) % 0x1_0000_0000_0000_0000 == 0,
        !state.records.contains_key(key) ==> state.removed(key).memory == state.memory,
{
    law_wrap_i64_is_congruent(state.memory - state.charged(key));
    lemma_wrap_i64_fits(state.memory as int);
}

/// Within the limit, or with no key queued, eviction does nothing.
pub proof fn law_no_eviction_within_the_limit(state: CacheState, limit: i64)
    requires
        state.memory <= limit || state.queue.len() == 0,
    ensures
        state.evicted(limit) == state,
{
}

/// Over the limit, eviction first drops a twentieth of the queue, or one key of fewer than forty,
/// with the records under these keys, and goes on from there. The counter falls by their charges.
pub proof fn law_eviction_by_rounds(state: CacheState, limit: i64)
    requires
        state.memory > limit,
        state.queue.len() > 0,
    ensures
        ({
            let batch: int = if state.queue.len() < 40 {
                1
            } else {
                state.queue.len() as int / 20
            };
            let front = state.queue.take(batch).to_set();
            let freed = wrap_i64(total_size(state.records.restrict(front)) as int);
            let rest = CacheState {
                records: state.records.remove_keys(front),
                queue: state.queue.skip(batch),
                memory: if freed > 0 {
                    wrap_i64(state.memory - freed)
                } else {
                    state.memory
                },
            };
            state.evicted(limit) == rest.evicted(limit)
        }),
{
}

/// Eviction stops as soon as it may: where one batch off the front of an exact cache brings the bytes
/// in use to the limit, that batch goes and nothing else.
pub proof fn law_one_batch_is_enough(state: CacheState, limit: i64)
    requires
        state.records.dom().finite(),
        state.memory == total_size(state.records),
        state.memory > limit,
        state.queue.len() > 0,
        ({
            let batch: int = if state.queue.len() < 40 {
                1
            } else {
                state.queue.len() as int / 20
            };
            total_size(state.records.remove_keys(state.queue.take(batch).to_set())) <= limit
        }),
    ensures
        ({
            let batch: int = if state.queue.len() < 40 {
                1
            } else {
                state.queue.len() as int / 20
            };
            let left = state.records.remove_keys(state.queue.take(batch).to_set());
            &&& state.evicted(limit).queue == state.queue.skip(batch)
            &&& state.evicted(limit).records == left
            &&& state.evicted(limit).memory == total_size(left)
        }),
{
    let batch: int = if state.queue.len() < 40 {
        1
    } else {
        state.queue.len() as int / 20
    };
    law_eviction_by_rounds(state, limit);
    lemma_without_oldest_counts(state, batch as nat);
}

/// Dropping the oldest keys of an exact cache leaves the counter at the charges that are left.
proof fn lemma_without_oldest_counts(state: CacheState, count: nat)
    requires
        state.records.dom().finite(),
        state.memory == total_size(state.records),
    ensures
        state.without_oldest(count).memory == total_size(state.without_oldest(count).records),
        state.without_oldest(count).records.dom().finite(),
{
    lemma_total_split(state.records, state.oldest(count));
    let freed = total_size(state.records.restrict(state.oldest(count))) as int;
    lemma_wrap_i64_fits(freed);
    lemma_wrap_i64_fits(state.memory - freed);
    assert(state.without_oldest(count).records.dom().subset_of(state.records.dom()));
}

/// No round of eviction is run in vain: `left` keys were queued when the last round started, the
/// bytes then in use were over the limit, and that round took a twentieth of these keys, or one of
/// fewer than forty.
pub proof fn law_last_round_was_due(state: CacheState, limit: i64) -> (left: nat)
    requires
        state.records.dom().finite(),
        state.memory == total_size(state.records),
        state.memory > limit,
        state.queue.len() > 0,
    ensures
        0 < left <= state.queue.len(),
        total_size(
            state.records.remove_keys(state.queue.take(state.queue.len() - left).to_set()),
        ) > limit,
        state.evicted(limit).queue == state.queue.skip(
            state.queue.len() - left + (if left < 40 {
                1int
            } else {
                left as int / 20
            }),
        ),
    decreases state.queue.len(),
{
    let batch = batch_size(state.queue.len());
    let next = state.without_oldest(batch);
    lemma_without_oldest_counts(state, batch);
    assert(state.evicted(limit) == next.evicted(limit));
    if next.memory > limit && next.queue.len() > 0 {
        let left = law_last_round_was_due(next, limit);
        let second = (next.queue.len() - left) as nat;
        lemma_without_oldest_twice(state, batch, second);
        assert(next.without_oldest(second).records == next.records.remove_keys(
            next.queue.take(second as int).to_set(),
        ));
        assert(batch + second == state.queue.len() - left);
        let last: int = if left < 40 {
            1
        } else {
            left as int / 20
        };
        assert(next.queue.skip(second + last) =~= state.queue.skip(batch + second + last));
        left
    } else {
        law_no_eviction_within_the_limit(next, limit);
        assert(state.queue.take(0).to_set() =~= Set::empty());
        assert(state.records.remove_keys(state.queue.take(0).to_set()) =~= state.records);
        state.queue.len()
    }
}

/// Eviction is in the order of the queue: a record is gone exactly where its key stands in the front
/// part that left the queue, and every other one is as it was.
pub proof fn law_eviction_is_in_order(state: CacheState, limit: i64, key: Seq<char>)
    ensures
        ({
            let after = state.evicted(limit);
            let gone = state.queue.len() - after.queue.len();
            &&& 0 <= gone
            &&& after.queue == state.queue.skip(gone)
            &&& after.records.contains_key(key) <==> state.records.contains_key(key) && forall|i: int|
                0 <= i < gone ==> #[trigger] state.queue[i] != key
            &&& after.records.contains_key(key) ==> after.records[key] == state.records[key]
        }),
{
    let count = law_eviction_takes_the_oldest(state, limit);
    let front = state.queue.take(count as int);
    if front.to_set().contains(key) {
        let i = choose|i: int| 0 <= i < count && front[i] == key;
        assert(state.queue[i] == key);
    } else {
        assert forall|i: int| 0 <= i < count implies #[trigger] state.queue[i] != key by {
            assert(front[i] == state.queue[i]);
        }
    }
}

/// After eviction from an exact cache the counter is the sum of the charges that are left, and it is
/// within the limit, or no record is left.
pub proof fn law_eviction_leaves_the_limit(state: CacheState, limit: i64)
    requires
        state.records.dom().finite(),
        forall|key: Seq<char>| #[trigger]
            state.records.contains_key(key) ==> state.queue.contains(key),
        state.memory == total_size(state.records),
    ensures
        state.evicted(limit).memory == total_size(state.evicted(limit).records),
        state.evicted(limit).memory <= limit || state.evicted(limit).records.dom() == Set::<
            Seq<char>,
        >::empty(),
    decreases state.queue.len(),
{
    if state.memory > limit {
        if state.queue.len() > 0 {
            let batch = batch_size(state.queue.len());
            let next = state.without_oldest(batch);
            lemma_without_oldest_counts(state, batch);
            assert forall|key: Seq<char>| #[trigger]
                next.records.contains_key(key) implies next.queue.contains(key) by {
                let i = choose|i: int| 0 <= i < state.queue.len() && state.queue[i] == key;
                if i < batch {
                    assert(state.queue.take(batch as int)[i] == key);
                } else {
                    assert(next.queue[i - batch] == key);
                }
            }
            law_eviction_leaves_the_limit(next, limit);
        } else {
            assert forall|key: Seq<char>| !state.records.contains_key(key) by {
                assert(!state.queue.contains(key));
            }
            assert(state.records.dom() =~= Set::empty());
        }
    }
}

} // verus!
