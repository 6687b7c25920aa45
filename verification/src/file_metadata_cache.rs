//! The cache of decoded file footers.

use std::collections::VecDeque;

use dashmap::DashMap;
use vstd::prelude::*;

use crate::arith::{
    lemma_i64_as_usize, lemma_usize_as_i64, lemma_wrap_i64_add, lemma_wrap_i64_fits,
    lemma_wrap_i64_sub, wrap_i64, wrap_usize,
};
use crate::cache_key::{cache_key, key_of, law_key_of_key};
use crate::cache_state::{law_entries_are_files, lemma_total_insert, total_size, CacheState};
use crate::entry::{FileMeta, FileMetadataCacheEntry, Record, SourceEntry};
use crate::entry_size::estimate_entry_size;
use crate::listing::{
    by_path, index_by_path, law_listing_is_its_rows, lemma_by_path_keys, lemma_by_path_row,
    paths_differ, Row,
};
use crate::metadata_object::{
    carried, file_meta, footer_info, footer_size, may_describe, may_report,
};
use crate::object_path::{is_plain_path, object_path, path_from, relative};
use crate::record_map::{
    clear_records, count_records, get_record, has_record, insert_record, list_records, new_records,
    records, remove_record,
};
use crate::text::texts;

verus! {

/// Whether a row of a listing says what the record under `key` is, and what its own footer answered.
pub open spec fn lists_record(row: Row, key: Seq<char>, record: Record) -> bool {
    &&& row.0@ == object_path(key)
    &&& row.1.entry == record.0
    &&& row.1.size_bytes == record.1
    &&& row.1.hits == 0
    &&& may_describe(record.0, row.1.extra)
}

/// What storing an entry came to.
pub struct Stored {
    /// The entry that it replaced.
    pub replaced: Option<SourceEntry>,
    /// Whether more bytes are in use than the budget allows, so that eviction is due.
    pub over_budget: bool,
}

/// A cache of decoded file footers.
///
/// A hit spares a scan both the reads of the footer and its decoding. Whether an entry still
/// describes the file as it is now is for the caller to decide, by size and time of last change.
///
/// The counter of the bytes in use wraps as machine words do.
pub struct FileMetadataCache {
    metadata: DashMap<String, Record>,
    cacher: VecDeque<String>,
    current_memory: i64,
}

impl View for FileMetadataCache {
    type V = CacheState;

    closed spec fn view(&self) -> CacheState {
        CacheState {
            records: records(self.metadata),
            queue: texts(self.cacher@),
            memory: self.current_memory,
        }
    }
}

impl FileMetadataCache {
    /// The cache is in a state that its operations lead to.
    pub open spec fn wf(self) -> bool {
        self@.wf()
    }

    /// An empty cache.
    pub fn new() -> (cache: Self)
        ensures
            cache.wf(),
            cache@ == CacheState::empty(),
    {
        let cache = FileMetadataCache {
            metadata: new_records(),
            cacher: VecDeque::new(),
            current_memory: 0,
        };
        assert(cache@ =~= CacheState::empty());
        cache
    }

    /// Drops the `count` keys at the front of the queue with their records.
    fn drop_oldest(&mut self, count: usize)
        requires
            old(self)@.records.dom().finite(),
            count <= old(self)@.queue.len(),
        ensures
            final(self)@ == old(self)@.without_oldest(count as nat),
    {
        let ghost before = self@;
        let mut removed_total: i64 = 0;
        let mut i: usize = 0;
        proof {
            assert(before.oldest(0) =~= Set::empty());
            assert(before.records.restrict(before.oldest(0)) =~= Map::empty());
            lemma_wrap_i64_fits(0);
        }
        while i < count
            invariant
                i <= count <= before.queue.len(),
                before.records.dom().finite(),
                self@.records =~= before.records.remove_keys(before.oldest(i as nat)),
                self@.queue =~= before.queue.skip(i as int),
                self@.memory == before.memory,
                removed_total == wrap_i64(
                    total_size(before.records.restrict(before.oldest(i as nat))) as int,
                ),
            decreases count - i,
        {
            let ghost held = before.records.restrict(before.oldest(i as nat));
            let ghost held_next = before.records.restrict(before.oldest(i as nat + 1));
            let ghost next = before.queue[i as int];
            let ghost queued = self.cacher@;
            proof {
                assert(texts(queued).len() == before.queue.len() - i);
                assert(texts(queued)[0] == next);
                let longer = before.queue.take(i + 1);
                assert(longer =~= before.queue.take(i as int).push(next));
                assert(longer[i as int] == next);
                assert forall|key: Seq<char>| #[trigger]
                    longer.to_set().contains(key) implies before.oldest(i as nat).insert(
                    next,
                ).contains(key) by {
                    let j = choose|j: int| 0 <= j < longer.len() && longer[j] == key;
                    if j < i {
                        assert(before.queue.take(i as int)[j] == key);
                    }
                }
                assert forall|key: Seq<char>| #[trigger]
                    before.oldest(i as nat).contains(key) implies longer.to_set().contains(key) by {
                    let j = choose|j: int|
                        0 <= j < i && before.queue.take(i as int)[j] == key;
                    assert(longer[j] == key);
                }
                assert(before.oldest(i as nat + 1) =~= before.oldest(i as nat).insert(next));
                assert(held.dom().subset_of(before.records.dom()));
            }
            if let Some(key) = self.cacher.pop_front() {
                match remove_record(&mut self.metadata, key.as_str()) {
                    Some((_, size)) => {
                        proof {
                            assert(held_next =~= held.insert(next, before.records[next]));
                            lemma_total_insert(held, next, before.records[next]);
                            assert(held.remove(next) =~= held);
                            lemma_usize_as_i64(size);
                            lemma_wrap_i64_add(total_size(held) as int, size as int);
                        }
                        removed_total = removed_total.wrapping_add(size as i64);
                    },
                    None => {
                        assert(held_next =~= held);
                    },
                }
            }
            i = i + 1;
            assert(self@.queue =~= texts(queued).skip(1));
        }
        if removed_total > 0 {
            proof {
                lemma_wrap_i64_fits(self.current_memory as int);
                lemma_wrap_i64_fits(removed_total as int);
                lemma_wrap_i64_sub(self.current_memory as int, removed_total as int);
            }
            self.current_memory = self.current_memory.wrapping_sub(removed_total);
        }
        assert(self@ =~= before.without_oldest(count as nat));
    }

    /// Drops the oldest entries, a batch at a time, until no more than `max_bytes` are in use or
    /// none is left. A budget that the counter cannot reach is negative to it: nothing is left.
    pub fn evict(&mut self, max_bytes: usize)
        requires
            old(self).wf(),
        ensures
            final(self).wf(),
            final(self)@ == old(self)@.evicted(wrap_i64(max_bytes as int)),
    {
        let limit: i64 = max_bytes as i64;
        proof {
            lemma_usize_as_i64(max_bytes);
        }
        while self.current_memory > limit && self.cacher.len() > 0
            invariant
                self.wf(),
                self@.evicted(limit) == old(self)@.evicted(limit),
            decreases self@.queue.len(),
        {
            let queued: usize = self.cacher.len();
            let twentieth: usize = queued / 20;
            let batch: usize = if twentieth > 1 {
                twentieth
            } else {
                1
            };
            proof {
                self@.lemma_without_oldest_wf(batch as nat);
            }
            self.drop_oldest(batch);
        }
    }

    /// The key under which the file at `k` is cached.
    pub fn format_key(&self, k: &str) -> (key: String)
        ensures
            key@ == cache_key(k@),
    {
        key_of(k)
    }

    /// The number of cached entries, which is that of the files that they are cached for.
    pub fn len(&self) -> (count: usize)
        ensures
            count == self@.records.len(),
            self.wf() ==> count == self@.files().len(),
    {
        proof {
            if self.wf() {
                law_entries_are_files(self@);
            }
        }
        count_records(&self.metadata)
    }

    /// The bytes in use. A counter that has fallen below zero counts as zero.
    pub fn memory_size(&self) -> (bytes: usize)
        ensures
            self@.memory <= 0 ==> bytes == 0,
            self@.memory > 0 ==> bytes == wrap_usize(self@.memory as int),
    {
        if self.current_memory > 0 {
            proof {
                lemma_i64_as_usize(self.current_memory);
            }
            self.current_memory as usize
        } else {
            0
        }
    }

    /// The entry cached for the file at `k`.
    pub fn get(&self, k: &str) -> (found: Option<SourceEntry>)
        ensures
            found == self@.entry_at(k@),
    {
        let key = self.format_key(k);
        match get_record(&self.metadata, key.as_str()) {
            Some((entry, _)) => Some(entry),
            None => None,
        }
    }

    /// Whether an entry is cached for the file at `k`.
    pub fn contains_key(&self, k: &str) -> (found: bool)
        ensures
            found == self@.records.contains_key(cache_key(k@)),
            found == self@.entry_at(k@) is Some,
    {
        let key = self.format_key(k);
        has_record(&self.metadata, key.as_str())
    }

    /// Caches an entry for the file at `k` and evicts the oldest ones while more than `max_bytes`
    /// are in use. The entry that it replaces comes back. The entry is asked for its metadata, and
    /// its footer for its size; [`FileMetadataCache::put_sized`] takes both as arguments.
    pub fn put(&mut self, k: &str, value: SourceEntry, max_bytes: usize) -> (replaced: Option<
        SourceEntry,
    >)
        requires
            old(self).wf(),
        ensures
            final(self).wf(),
            exists|reported: usize|
                may_report(value, reported) && final(self)@ == #[trigger] old(self)@.after_put(
                    k@,
                    value,
                    carried(value),
                    reported,
                    max_bytes,
                ),
            replaced == old(self)@.entry_at(k@),
    {
        let meta = file_meta(&value);
        let reported: usize = footer_size(&value);
        self.put_sized(k, value, &meta, reported, max_bytes)
    }

    /// Caches an entry with the metadata `meta`, whose footer reports `reported` bytes, for the file
    /// at `k`, and evicts the oldest ones while more than `max_bytes` are in use. The entry that it
    /// replaces comes back.
    pub fn put_sized(
        &mut self,
        k: &str,
        value: SourceEntry,
        meta: &FileMeta,
        reported: usize,
        max_bytes: usize,
    ) -> (replaced: Option<SourceEntry>)
        requires
            old(self).wf(),
        ensures
            final(self).wf(),
            final(self)@ == old(self)@.after_put(k@, value, meta@, reported, max_bytes),
            replaced == old(self)@.entry_at(k@),
    {
        let stored = self.store_sized(k, value, meta, reported, max_bytes);
        if stored.over_budget {
            self.evict(max_bytes);
        }
        stored.replaced
    }

    /// The first half of [`FileMetadataCache::put`]: caches an entry for the file at `k`, and says
    /// whether [`FileMetadataCache::evict`] is due. For a caller that watches eviction.
    pub fn store(&mut self, k: &str, value: SourceEntry, max_bytes: usize) -> (stored: Stored)
        requires
            old(self).wf(),
        ensures
            final(self).wf(),
            exists|reported: usize|
                may_report(value, reported) && final(self)@ == #[trigger] old(self)@.after_store(
                    k@,
                    value,
                    carried(value),
                    reported,
                ),
            stored.replaced == old(self)@.entry_at(k@),
            stored.over_budget == (final(self)@.memory > wrap_i64(max_bytes as int)),
    {
        let meta = file_meta(&value);
        let reported: usize = footer_size(&value);
        self.store_sized(k, value, &meta, reported, max_bytes)
    }

    /// Caches an entry with the metadata `meta`, whose footer reports `reported` bytes, for the file
    /// at `k`, and says whether eviction is due.
    pub fn store_sized(
        &mut self,
        k: &str,
        value: SourceEntry,
        meta: &FileMeta,
        reported: usize,
        max_bytes: usize,
    ) -> (stored: Stored)
        requires
            old(self).wf(),
        ensures
            final(self).wf(),
            final(self)@ == old(self)@.after_store(k@, value, meta@, reported),
            stored.replaced == old(self)@.entry_at(k@),
            stored.over_budget == (final(self)@.memory > wrap_i64(max_bytes as int)),
    {
        let key = self.format_key(k);
        let size: usize = estimate_entry_size(key.as_str(), meta, reported);
        let ghost before = self@;
        let ghost record: Record = (value, size);
        let previous = insert_record(&mut self.metadata, key.clone(), (value, size));
        let previous_size: usize = match &previous {
            Some((_, charged)) => *charged,
            None => 0,
        };
        let delta: i64 = (size as i64).wrapping_sub(previous_size as i64);
        proof {
            lemma_usize_as_i64(size);
            lemma_usize_as_i64(previous_size);
            lemma_usize_as_i64(max_bytes);
            lemma_wrap_i64_sub(size as int, previous_size as int);
            lemma_wrap_i64_fits(before.memory as int);
            lemma_wrap_i64_add(before.memory as int, size - previous_size);
            law_key_of_key(k@);
            before.lemma_stored_wf(key@, record);
        }
        self.current_memory = self.current_memory.wrapping_add(delta);
        // A key that is there already is queued already: queueing it again would leave a duplicate
        // behind.
        if previous.is_none() {
            self.cacher.push_back(key);
        }
        assert(self@ =~= before.stored(key@, record));
        let over_budget: bool = self.current_memory > max_bytes as i64;
        let replaced = match previous {
            Some((entry, _)) => Some(entry),
            None => None,
        };
        Stored { replaced, over_budget }
    }

    /// Removes the entry cached for the file at `k` and hands it back.
    pub fn remove(&mut self, k: &str) -> (removed: Option<SourceEntry>)
        requires
            old(self).wf(),
        ensures
            final(self).wf(),
            final(self)@ == old(self)@.removed(cache_key(k@)),
            removed == old(self)@.entry_at(k@),
    {
        let key = self.format_key(k);
        let ghost before = self@;
        proof {
            before.lemma_removed_wf(key@);
            lemma_wrap_i64_fits(before.memory as int);
        }
        match remove_record(&mut self.metadata, key.as_str()) {
            Some((entry, size)) => {
                proof {
                    lemma_usize_as_i64(size);
                    lemma_wrap_i64_sub(before.memory as int, size as int);
                }
                self.current_memory = self.current_memory.wrapping_sub(size as i64);
                assert(self@ =~= before.removed(key@));
                Some(entry)
            },
            None => {
                assert(self@ =~= before.removed(key@));
                None
            },
        }
    }

    /// Removes every entry.
    pub fn clear(&mut self)
        ensures
            final(self).wf(),
            final(self)@ == CacheState::empty(),
    {
        clear_records(&mut self.metadata);
        self.cacher.clear();
        self.current_memory = 0;
        assert(self@ =~= CacheState::empty());
    }

    /// Every cached entry, by the path that its key makes; a key that is a plain path, or one behind
    /// a slash, makes that path. Where several keys make one path, one of their entries is listed;
    /// which one is left open. Each footer is asked what it says of itself, and its own answer stands
    /// in its row.
    pub fn list_entries(&self) -> (listing: Vec<Row>)
        ensures
            paths_differ(listing@),
            by_path(listing@).dom() == self@.records.dom().map(|key: Seq<char>| object_path(key)),
            forall|key: Seq<char>| #[trigger]
                self@.records.contains_key(key) && is_plain_path(relative(key)) ==> object_path(key)
                    == relative(key),
            forall|i: int|
                0 <= i < listing@.len() ==> exists|key: Seq<char>| #[trigger]
                    self@.records.contains_key(key) && lists_record(
                        #[trigger] listing@[i],
                        key,
                        self@.records[key],
                    ),
    {
        let mut held = list_records(&self.metadata);
        let ghost all = held@;
        let mut rows: Vec<Row> = Vec::new();
        while held.len() > 0
            invariant
                rows@.len() + held@.len() == all.len(),
                held@ == all.take(held@.len() as int),
                forall|j: int|
                    #![trigger rows@[j]]
                    0 <= j < rows@.len() ==> lists_record(
                        rows@[j],
                        all[all.len() - 1 - j].0@,
                        all[all.len() - 1 - j].1,
                    ),
                forall|j: int|
                    held@.len() <= j < all.len() && is_plain_path(relative((#[trigger] all[j]).0@))
                        ==> object_path(all[j].0@) == relative(all[j].0@),
            decreases held@.len(),
        {
            if let Some((key, (entry, size_bytes))) = held.pop() {
                let path = path_from(key.as_str());
                let extra = footer_info(&entry);
                rows.push((path, FileMetadataCacheEntry { entry, size_bytes, hits: 0, extra }));
            }
        }
        let ghost asked = rows@;
        let listing = index_by_path(rows);
        proof {
            assert forall|i: int| 0 <= i < listing@.len() implies exists|key: Seq<char>| #[trigger]
                self@.records.contains_key(key) && lists_record(
                    #[trigger] listing@[i],
                    key,
                    self@.records[key],
                ) by {
                law_listing_is_its_rows(listing@, i);
                let j = lemma_by_path_row(asked, listing@[i].0@);
                let key = all[all.len() - 1 - j].0@;
                assert(self@.records.contains_key(key));
                assert(lists_record(listing@[i], key, self@.records[key]));
            }
            assert forall|key: Seq<char>| #[trigger]
                self@.records.contains_key(key) && is_plain_path(relative(key)) implies object_path(
                key,
            ) == relative(key) by {
                let j = choose|j: int| 0 <= j < all.len() && (#[trigger] all[j]).0@ == key;
            }
            let paths = self@.records.dom().map(|key: Seq<char>| object_path(key));
            assert forall|path: Seq<char>| #[trigger]
                paths.contains(path) implies by_path(listing@).dom().contains(path) by {
                let key = choose|key: Seq<char>| #[trigger]
                    self@.records.dom().contains(key) && object_path(key) == path;
                assert(self@.records.contains_key(key));
                let j = choose|j: int| 0 <= j < all.len() && (#[trigger] all[j]).0@ == key;
                assert(lists_record(asked[all.len() - 1 - j], key, all[j].1));
                lemma_by_path_keys(asked, path);
            }
            assert forall|path: Seq<char>| #[trigger]
                by_path(listing@).dom().contains(path) implies paths.contains(path) by {
                let j = lemma_by_path_row(asked, path);
                assert(self@.records.contains_key(all[all.len() - 1 - j].0@));
            }
            assert(by_path(listing@).dom() =~= paths);
        }
        listing
    }

    /// The cache's name.
    pub fn name(&self) -> (name: String)
        ensures
            name@ == "FileMetadataCache"@,
    {
        "FileMetadataCache".to_owned()
    }

    /// Does nothing: the budget is whatever the caller of [`FileMetadataCache::put`] says at that
    /// moment. A session that brings a limit of its own cannot change that of the whole process.
    pub fn update_cache_limit(&mut self, _limit: usize)
        ensures
            *final(self) == *old(self),
    {
    }
}

impl Default for FileMetadataCache {
    /// An empty cache.
    fn default() -> (cache: Self)
        ensures
            cache.wf(),
            cache@ == CacheState::empty(),
    {
        FileMetadataCache::new()
    }
}

/// A row lists a record exactly where its path is the one that the key makes, its entry and size are
/// those of the record, no hit is counted, and the description is an answer of that entry's footer.
pub proof fn law_listed_row(row: Row, key: Seq<char>, record: Record)
    ensures
        lists_record(row, key, record) <==> row.0@ == object_path(key) && row.1.entry == record.0
            && row.1.size_bytes == record.1 && row.1.hits == 0 && may_describe(
            record.0,
            row.1.extra,
        ),
{
}

} // verus!
