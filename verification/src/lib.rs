//! Caching and warm-up planning for a search engine over columnar files.
//!
//! * [`file_metadata_cache`] holds decoded file footers under a memory budget and evicts the
//!   oldest ones first. [`cache_state`] is its mathematical model, with the laws that hold of it.
//! * [`cache_key`] turns a file's path into the key that every query shares.
//! * [`entry_size`] estimates what one cached footer costs.
//! * [`listing`] arranges the cached footers by path.
//! * [`warm`] decides which fields and terms of a full-text index are read ahead of a search.
//!
//! Calls into other crates stand in [`record_map`], [`metadata_object`], [`object_path`],
//! [`index_schema`] and [`term_map`], each behind a contract that is taken on trust. [`entry`] names
//! two types of other crates that are carried along.

pub mod arith;
pub mod cache_key;
pub mod cache_state;
pub mod entry;
pub mod entry_size;
pub mod file_metadata_cache;
pub mod index_schema;
pub mod listing;
pub mod metadata_object;
pub mod object_path;
pub mod record_map;
pub mod term_map;
pub mod text;
pub mod warm;
