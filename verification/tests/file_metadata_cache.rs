use std::any::Any;
use std::collections::HashMap;
use std::sync::Arc;

use chrono::{DateTime, Utc};
use datafusion::execution::cache::cache_manager::{CachedFileMetadataEntry, FileMetadata};
use object_store::path::Path;
use object_store::ObjectMeta;
use search_cache::cache_key::key_of;
use search_cache::entry::{FileMeta, FileMetadataCacheEntry};
use search_cache::entry_size::estimate_entry_size;
use search_cache::file_metadata_cache::FileMetadataCache;
use search_cache::listing::{index_by_path, Row};
use search_cache::metadata_object::{file_meta, footer_info, footer_size};

/// A budget that no test fills by chance.
const AMPLE: usize = 1 << 30;

/// Metadata with a fixed reported size.
struct TestMetadata {
    size: usize,
}

impl FileMetadata for TestMetadata {
    fn as_any(&self) -> &dyn Any {
        self
    }

    fn memory_size(&self) -> usize {
        self.size
    }

    fn extra_info(&self) -> HashMap<String, String> {
        HashMap::from([("size".to_string(), self.size.to_string())])
    }
}

/// Parse an RFC3339 timestamp, panicking on malformed input.
fn ts(s: &str) -> DateTime<Utc> {
    DateTime::parse_from_rfc3339(s).unwrap().into()
}

/// Minimal metadata of an object: fixed time of last change, no etag or version.
fn object_meta(location: &str, size: u64) -> ObjectMeta {
    ObjectMeta {
        location: Path::from(location),
        last_modified: ts("2024-01-15T00:00:00+00:00"),
        size,
        e_tag: None,
        version: None,
    }
}

/// An entry for an object whose footer reports a size.
fn entry(meta: &ObjectMeta, size: usize) -> CachedFileMetadataEntry {
    CachedFileMetadataEntry::new(meta.clone(), Arc::new(TestMetadata { size }))
}

/// What the cache reads of the metadata of an object without etag or version.
fn bare(location: &str) -> FileMeta {
    FileMeta {
        location: location.to_string(),
        e_tag: None,
        version: None,
    }
}

/// Insert an entry into the cache under its own location.
fn put(cache: &mut FileMetadataCache, meta: ObjectMeta, size: usize) {
    cache.put(meta.location.as_ref(), entry(&meta, size), AMPLE);
}

/// What an entry costs that has neither etag nor version.
fn cost(key: &str, location: &str, reported: usize) -> usize {
    2 * (std::mem::size_of::<String>() + key.len())
        + std::mem::size_of::<ObjectMeta>()
        + location.len()
        + reported
        + std::mem::size_of::<usize>()
        + 64
}

/// The listing's paths, sorted.
fn listed_paths(cache: &FileMetadataCache) -> Vec<String> {
    let mut paths: Vec<String> = cache.list_entries().into_iter().map(|row| row.0).collect();
    paths.sort();
    paths
}

#[test]
fn test_file_metadata_cache() {
    let meta = object_meta("files/default/logs/test.parquet", 1024);
    let mut cache = FileMetadataCache::default();
    assert!(cache.get(meta.location.as_ref()).is_none());

    put(&mut cache, meta.clone(), 100);

    // exact match is valid
    let cached = cache.get(meta.location.as_ref()).expect("entry present");
    assert!(cached.is_valid_for(&meta));

    // same location but file size changed -> cached but stale
    let mut changed = meta.clone();
    changed.size = 2048;
    let cached = cache.get(changed.location.as_ref()).expect("entry present");
    assert!(!cached.is_valid_for(&changed));

    // same location but last_modified changed -> cached but stale
    let mut changed = meta.clone();
    changed.last_modified = ts("2024-01-15T01:00:00+00:00");
    let cached = cache.get(changed.location.as_ref()).expect("entry present");
    assert!(!cached.is_valid_for(&changed));

    // different location -> miss
    assert!(cache.get(Path::from("files/other.parquet").as_ref()).is_none());
}

#[test]
fn test_trace_id_prefix_normalization() {
    // The same physical file scanned by two different queries (different trace-id prefixes) must
    // share one cache entry.
    let mut cache = FileMetadataCache::new();
    let physical = "$$/files/default/logs/test.parquet";
    let meta = object_meta(&format!("trace1/schema=abc/format=parquet/{physical}"), 1024);
    put(&mut cache, meta, 100);

    assert_eq!(cache.len(), 1);
    let other_trace = Path::from(format!("trace2/schema=abc/format=parquet/{physical}"));
    assert!(cache.get(other_trace.as_ref()).is_some());
    assert!(cache.contains_key(other_trace.as_ref()));
}

#[test]
fn test_memory_size_tracking() {
    let mut cache = FileMetadataCache::new();
    assert_eq!(cache.memory_size(), 0, "empty cache tracks zero memory");

    for i in 0..10u64 {
        let meta = object_meta(&format!("files/test_file_{i}"), 1024 * (i + 1));
        put(&mut cache, meta, 1000);
    }

    assert!(
        cache.memory_size() >= 10_000,
        "memory includes the reported metadata sizes"
    );
    assert_eq!(cache.len(), 10);

    // overwriting a key must not double-count
    let before = cache.memory_size();
    let meta = object_meta("files/test_file_0", 1024);
    put(&mut cache, meta, 1000);
    assert_eq!(cache.len(), 10);
    assert_eq!(cache.memory_size(), before);

    cache.clear();
    assert_eq!(cache.memory_size(), 0, "cleared cache returns to zero");
}

#[test]
fn test_cache_contains_key_and_remove() {
    let mut cache = FileMetadataCache::new();
    let meta = object_meta("files/test_file", 512);
    let k = meta.location.clone();

    assert!(!cache.contains_key(k.as_ref()));

    put(&mut cache, meta, 100);
    assert!(cache.contains_key(k.as_ref()));
    assert_eq!(cache.len(), 1);

    assert!(cache.remove(k.as_ref()).is_some());
    assert!(!cache.contains_key(k.as_ref()));
    assert_eq!(cache.len(), 0);
    assert_eq!(cache.memory_size(), 0);
}

#[test]
fn test_list_entries() {
    let mut cache = FileMetadataCache::new();
    assert!(cache.list_entries().is_empty());

    let meta = object_meta("files/list_test", 256);
    let k = meta.location.clone();
    put(&mut cache, meta, 100);

    let entries = cache.list_entries();
    assert_eq!(entries.len(), 1);
    assert!(entries.iter().any(|row| Path::from(row.0.as_str()) == k));
}

#[test]
fn test_cache_name() {
    assert_eq!(FileMetadataCache::new().name(), "FileMetadataCache");
}

#[test]
fn test_cache_remove_nonexistent_returns_none() {
    let mut cache = FileMetadataCache::new();
    assert!(cache.remove(Path::from("does_not_exist").as_ref()).is_none());
}

#[test]
fn entry_cost_has_every_part() {
    assert_eq!(estimate_entry_size("key", &bare("a/b"), 1000), cost("key", "a/b", 1000));
    let full = FileMeta {
        location: "a/b".to_string(),
        e_tag: Some("etag".to_string()),
        version: Some("v".to_string()),
    };
    let header = std::mem::size_of::<String>();
    assert_eq!(
        estimate_entry_size("key", &full, 1000),
        cost("key", "a/b", 1000) + header + 4 + header + 1
    );
}

#[test]
fn entry_cost_counts_bytes_of_a_text() {
    assert_eq!(estimate_entry_size("\u{20ac}", &bare("\u{e9}"), 0), cost("abc", "ab", 0));
}

#[test]
fn entry_cost_wraps_beyond_a_word() {
    assert_eq!(estimate_entry_size("", &bare(""), usize::MAX), cost("", "", 0) - 1);
}

#[test]
fn memory_is_the_sum_of_the_costs() {
    let mut cache = FileMetadataCache::new();
    put(&mut cache, object_meta("a", 1), 10);
    assert_eq!(cache.memory_size(), cost("a", "a", 10));
    put(&mut cache, object_meta("bb", 1), 20);
    assert_eq!(cache.memory_size(), cost("a", "a", 10) + cost("bb", "bb", 20));
    // a replacement of another size is counted in place of what it replaces
    put(&mut cache, object_meta("a", 1), 500);
    assert_eq!(cache.memory_size(), cost("a", "a", 500) + cost("bb", "bb", 20));
    cache.remove("bb");
    assert_eq!(cache.memory_size(), cost("a", "a", 500));
}

#[test]
fn put_hands_back_what_it_replaces() {
    let mut cache = FileMetadataCache::new();
    let first = object_meta("a", 1);
    let second = object_meta("a", 2);
    assert!(cache.put("a", entry(&first, 10), AMPLE).is_none());
    let replaced = cache.put("a", entry(&second, 10), AMPLE).expect("replaced");
    assert!(replaced.is_valid_for(&first));
    let cached = cache.get("a").expect("present");
    assert!(cached.is_valid_for(&second));
    let removed = cache.remove("a").expect("removed");
    assert!(removed.is_valid_for(&second));
}

#[test]
fn entry_answers_for_itself() {
    let mut meta = object_meta("files/x", 1);
    meta.e_tag = Some("tag".to_string());
    meta.version = Some("v7".to_string());
    let asked = entry(&meta, 123);
    assert_eq!(footer_size(&asked), 123);
    assert_eq!(
        footer_info(&asked),
        HashMap::from([("size".to_string(), "123".to_string())])
    );
    let read = file_meta(&asked);
    assert_eq!(read.location, "files/x");
    assert_eq!(read.e_tag, Some("tag".to_string()));
    assert_eq!(read.version, Some("v7".to_string()));
    // a clone carries the same metadata
    let again = file_meta(&asked.clone());
    assert_eq!(again.location, read.location);
    assert_eq!(again.e_tag, read.e_tag);
    assert_eq!(again.version, read.version);
}

#[test]
fn put_charges_what_the_entry_says() {
    let mut meta = object_meta("a", 1);
    meta.e_tag = Some("etag".to_string());
    meta.version = Some("v".to_string());
    let mut asked = FileMetadataCache::new();
    asked.put("a", entry(&meta, 123), AMPLE);
    let header = std::mem::size_of::<String>();
    assert_eq!(asked.memory_size(), cost("a", "a", 123) + header + 4 + header + 1);
    // with both given, the entry is not asked
    let mut told = FileMetadataCache::new();
    told.put_sized("a", entry(&meta, 9), &bare("a"), 123, AMPLE);
    assert_eq!(told.memory_size(), cost("a", "a", 123));
}

#[test]
fn store_says_whether_eviction_is_due() {
    let mut cache = FileMetadataCache::new();
    let one = cost("a", "a", 100);
    let stored = cache.store("a", entry(&object_meta("a", 1), 100), one);
    assert!(stored.replaced.is_none());
    assert!(!stored.over_budget);
    let stored = cache.store("b", entry(&object_meta("b", 1), 100), one);
    assert!(stored.replaced.is_none());
    assert!(stored.over_budget);
    // nothing goes before eviction is run
    assert_eq!(cache.len(), 2);
    assert_eq!(cache.memory_size(), 2 * one);
    cache.evict(one);
    assert!(!cache.contains_key("a"));
    assert_eq!(cache.memory_size(), one);
    let changed = object_meta("b", 2);
    let stored = cache.store_sized("b", entry(&changed, 100), &bare("b"), 100, one);
    let replaced = stored.replaced.expect("replaced");
    assert!(replaced.is_valid_for(&object_meta("b", 1)));
    assert!(!stored.over_budget);
}

#[test]
fn put_is_store_then_evict() {
    let budget = 2 * cost("a", "a", 100);
    let mut whole = FileMetadataCache::new();
    let mut halves = FileMetadataCache::new();
    for name in ["a", "b", "c", "b", "d"] {
        let value = entry(&object_meta(name, 1), 100);
        whole.put(name, value.clone(), budget);
        if halves.store(name, value, budget).over_budget {
            halves.evict(budget);
        }
        assert_eq!(whole.memory_size(), halves.memory_size());
        assert_eq!(listed_paths(&whole), listed_paths(&halves));
    }
}

#[test]
fn eviction_takes_the_oldest_first() {
    let mut cache = FileMetadataCache::new();
    let one = cost("a", "a", 100);
    for name in ["a", "b", "c"] {
        cache.put(name, entry(&object_meta(name, 1), 100), 3 * one);
    }
    assert_eq!(cache.len(), 3);
    cache.put("d", entry(&object_meta("d", 1), 100), 3 * one);
    assert!(!cache.contains_key("a"));
    assert!(cache.contains_key("b"));
    assert!(cache.contains_key("c"));
    assert!(cache.contains_key("d"));
    assert_eq!(cache.memory_size(), 3 * one);
}

#[test]
fn reading_does_not_make_an_entry_younger() {
    let mut cache = FileMetadataCache::new();
    let one = cost("a", "a", 100);
    for name in ["a", "b"] {
        cache.put(name, entry(&object_meta(name, 1), 100), 2 * one);
    }
    assert!(cache.get("a").is_some());
    cache.put("c", entry(&object_meta("c", 1), 100), 2 * one);
    assert!(!cache.contains_key("a"));
}

#[test]
fn overwriting_does_not_make_an_entry_younger() {
    let mut cache = FileMetadataCache::new();
    let one = cost("a", "a", 100);
    for name in ["a", "b", "a"] {
        cache.put(name, entry(&object_meta(name, 1), 100), 2 * one);
    }
    cache.put("c", entry(&object_meta("c", 1), 100), 2 * one);
    assert!(!cache.contains_key("a"));
    assert!(cache.contains_key("b"));
}

#[test]
fn eviction_takes_a_twentieth_at_a_time() {
    let mut cache = FileMetadataCache::new();
    let mut total = 0;
    for i in 0..60 {
        let name = format!("{i:02}");
        put(&mut cache, object_meta(&name, 1), 100);
        total += cost(&name, &name, 100);
    }
    assert_eq!(cache.memory_size(), total);
    // one byte over: a batch of three goes
    cache.evict(total - 1);
    assert_eq!(cache.len(), 57);
    for i in 0..60 {
        assert_eq!(cache.contains_key(&format!("{i:02}")), i >= 3);
    }
    // a batch of 57 / 20 = 2 goes
    let left = cache.memory_size();
    cache.evict(left - 1);
    assert_eq!(cache.len(), 55);
}

#[test]
fn eviction_within_the_budget_does_nothing() {
    let mut cache = FileMetadataCache::new();
    put(&mut cache, object_meta("a", 1), 10);
    let used = cache.memory_size();
    cache.evict(used);
    assert_eq!(cache.len(), 1);
    assert_eq!(cache.memory_size(), used);
}

#[test]
fn entry_beyond_the_budget_is_not_kept() {
    let mut cache = FileMetadataCache::new();
    put(&mut cache, object_meta("a", 1), 10);
    assert!(cache.put("b", entry(&object_meta("b", 1), 10_000), 5_000).is_none());
    assert_eq!(cache.len(), 0);
    assert_eq!(cache.memory_size(), 0);
}

#[test]
fn key_queued_twice_is_evicted_at_its_first_place() {
    let mut cache = FileMetadataCache::new();
    let one = cost("a", "a", 100);
    for name in ["a", "b"] {
        cache.put(name, entry(&object_meta(name, 1), 100), 3 * one);
    }
    cache.remove("a");
    cache.put("a", entry(&object_meta("a", 1), 100), 3 * one);
    cache.put("c", entry(&object_meta("c", 1), 100), 3 * one);
    assert_eq!(cache.len(), 3);
    // the front of the queue is still the place that "a" had before it was removed
    cache.evict(3 * one - 1);
    assert!(!cache.contains_key("a"));
    assert!(cache.contains_key("b"));
    // behind it "b" is next; the second place of "a" frees nothing
    cache.evict(one - 1);
    assert_eq!(cache.len(), 0);
    assert_eq!(cache.memory_size(), 0);
}

#[test]
fn budget_beyond_the_counter_evicts_everything() {
    let mut cache = FileMetadataCache::new();
    put(&mut cache, object_meta("a", 1), 10);
    cache.evict(usize::MAX);
    assert_eq!(cache.len(), 0);
}

#[test]
fn counter_below_zero_reads_as_zero() {
    let mut cache = FileMetadataCache::new();
    let huge = usize::MAX / 2 + 1;
    cache.put_sized("a", entry(&object_meta("a", 1), 0), &bare("a"), huge, AMPLE);
    assert_eq!(cache.len(), 1);
    assert_eq!(cache.memory_size(), 0);
    cache.remove("a");
    assert_eq!(cache.len(), 0);
    put(&mut cache, object_meta("b", 1), 10);
    assert_eq!(cache.memory_size(), cost("b", "b", 10));
}

#[test]
fn remove_undoes_put() {
    let mut cache = FileMetadataCache::new();
    put(&mut cache, object_meta("a", 1), 10);
    let used = cache.memory_size();
    put(&mut cache, object_meta("b", 1), 77);
    assert!(cache.remove("b").is_some());
    assert_eq!(cache.len(), 1);
    assert_eq!(cache.memory_size(), used);
    assert!(cache.get("a").is_some());
}

#[test]
fn clear_forgets_the_queue() {
    let mut cache = FileMetadataCache::new();
    put(&mut cache, object_meta("a", 1), 10);
    cache.clear();
    assert_eq!(cache.len(), 0);
    assert!(cache.get("a").is_none());
    put(&mut cache, object_meta("b", 1), 10);
    cache.evict(0);
    assert_eq!(cache.len(), 0);
    assert_eq!(cache.memory_size(), 0);
}

#[test]
fn session_limit_changes_nothing() {
    let mut cache = FileMetadataCache::new();
    put(&mut cache, object_meta("a", 1), 10);
    let used = cache.memory_size();
    cache.update_cache_limit(0);
    assert_eq!(cache.len(), 1);
    assert_eq!(cache.memory_size(), used);
}

#[test]
fn key_starts_at_the_separator() {
    assert_eq!(key_of("plain/path"), "plain/path");
    assert_eq!(key_of("trace/$$/file"), "/$$/file");
    assert_eq!(key_of("trace/schema=1/x/$$/file"), "/$$/file");
    assert_eq!(key_of("trace/$$/schema=1/file"), "/$$/schema=1/file");
    assert_eq!(key_of("trace/schema=1/file"), "trace/schema=1/file");
    // the first separator counts
    assert_eq!(key_of("t/schema=1/schema=2/$$/a/$$/b"), "/$$/a/$$/b");
    assert_eq!(key_of("/$$/"), "/$$/");
    assert_eq!(key_of("/$$"), "/$$");
    assert_eq!(key_of(""), "");
    assert_eq!(key_of("\u{20ac}\u{e9}/$$/\u{20ac}"), "/$$/\u{20ac}");
}

#[test]
fn one_file_has_one_key() {
    // queries that differ in trace id and in schema share the entry of a file
    let mut cache = FileMetadataCache::new();
    put(&mut cache, object_meta("trace1/schema=1/$$/files/x", 1), 10);
    assert!(cache.contains_key("trace2/schema=2/$$/files/x"));
    assert!(cache.contains_key("trace3/$$/files/x"));
    assert!(!cache.contains_key("trace1/schema=1/$$/files/y"));
    put(&mut cache, object_meta("trace2/schema=2/$$/files/x", 1), 10);
    assert_eq!(cache.len(), 1);
}

#[test]
fn entries_are_counted_by_file() {
    let paths = [
        "trace1/schema=1/$$/files/x",
        "trace2/$$/files/x",
        "trace1/schema=1/$$/files/y",
        "plain",
        "/$$/files/y",
        "gone",
    ];
    let mut cache = FileMetadataCache::new();
    for path in paths {
        cache.put(path, entry(&object_meta("o", 1), 100), AMPLE);
    }
    let files = |cache: &FileMetadataCache| {
        let mut keys: Vec<String> = paths
            .iter()
            .filter(|path| cache.contains_key(path))
            .map(|path| cache.format_key(path))
            .collect();
        keys.sort();
        keys.dedup();
        keys
    };
    assert_eq!(cache.len(), 4);
    assert_eq!(files(&cache), ["/$$/files/x", "/$$/files/y", "gone", "plain"]);
    cache.remove("gone");
    assert_eq!(cache.len(), 3);
    assert_eq!(files(&cache), ["/$$/files/x", "/$$/files/y", "plain"]);
    // the oldest goes, for every query
    cache.evict(cache.memory_size() - 1);
    assert_eq!(cache.len(), 2);
    assert_eq!(files(&cache), ["/$$/files/y", "plain"]);
}

#[test]
fn key_is_its_own_key() {
    for path in ["p", "t/$$/f", "t/schema=1/$$/f", "t/schema=1/schema=2/$$/f/$$/g"] {
        let key = key_of(path);
        assert_eq!(key_of(&key), key);
        assert_eq!(FileMetadataCache::new().format_key(path), key);
    }
}

#[test]
fn listing_says_what_is_cached() {
    let mut cache = FileMetadataCache::new();
    let meta = object_meta("files/one", 256);
    put(&mut cache, meta.clone(), 100);
    let listing = cache.list_entries();
    assert_eq!(listing.len(), 1);
    let (path, listed) = &listing[0];
    assert_eq!(path, "files/one");
    assert!(listed.entry.is_valid_for(&meta));
    assert_eq!(listed.size_bytes, cost("files/one", "files/one", 100));
    assert_eq!(listed.hits, 0);
    assert_eq!(
        listed.extra,
        HashMap::from([("size".to_string(), "100".to_string())])
    );
}

#[test]
fn listing_is_by_normalised_path() {
    let mut cache = FileMetadataCache::new();
    put(&mut cache, object_meta("trace/$$/files/x", 1), 10);
    put(&mut cache, object_meta("plain", 1), 10);
    // the key "/$$/files/x" makes a path without the empty first segment
    assert_eq!(listed_paths(&cache), vec!["$$/files/x".to_string(), "plain".to_string()]);
    // characters that a path does not allow are escaped
    cache.put("a?b", entry(&object_meta("c", 1), 10), AMPLE);
    assert!(listed_paths(&cache).contains(&"a%3Fb".to_string()));
}

#[test]
fn keys_with_one_path_are_listed_once() {
    let mut cache = FileMetadataCache::new();
    cache.put("a//b", entry(&object_meta("x", 1), 10), AMPLE);
    cache.put("a/b", entry(&object_meta("x", 1), 10), AMPLE);
    assert_eq!(cache.len(), 2);
    assert_eq!(listed_paths(&cache), vec!["a/b".to_string()]);
}

/// A row of a listing with a given size.
fn row(path: &str, size_bytes: usize) -> Row {
    let listed = FileMetadataCacheEntry {
        entry: entry(&object_meta(path, 1), 1),
        size_bytes,
        hits: 0,
        extra: HashMap::new(),
    };
    (path.to_string(), listed)
}

#[test]
fn last_row_of_a_path_is_kept() {
    let listing = index_by_path(vec![row("a", 1), row("b", 2), row("a", 3)]);
    let mut kept: Vec<(String, usize)> =
        listing.into_iter().map(|row| (row.0, row.1.size_bytes)).collect();
    kept.sort();
    assert_eq!(kept, vec![("a".to_string(), 3), ("b".to_string(), 2)]);
    assert!(index_by_path(Vec::new()).is_empty());
}
