# search_cache

Two pieces of a search engine over columnar files, verified with Verus.

* `src/file_metadata_cache.rs` caches decoded file footers under a memory budget and evicts the
  oldest ones first. `src/cache_state.rs` is the model that its contracts speak of, with the laws
  of reading, writing, counting and evicting.
* `src/warm.rs` plans what is read of a full-text index before a search: whole fields, single terms
  and columns.

What is taken on trust of other crates stands in `src/record_map.rs` (dashmap), `src/term_map.rs`
(hashbrown), `src/index_schema.rs` (tantivy), `src/object_path.rs` (object_store),
`src/metadata_object.rs` and `src/entry.rs` (datafusion, object_store).

Counters wrap as machine words do. The laws that speak of exact sums say so in their conditions.

`app/` shares the cache between threads, gives it DataFusion's traits, counts hits, misses and
evictions, and runs the warm-up.
