//! What a cached entry is asked.
//!
//! The metadata of its file is data that the entry owns: [`carried`] names its texts.
//!
//! The decoded footer is an object behind DataFusion's `FileMetadata` trait. Any implementation may
//! answer, and may answer differently each time, so no answer is fixed here. What is fixed is whose
//! answer it is: a value for which one of the `may_` predicates holds is one that the call on that
//! very entry can return.

use std::collections::HashMap;

use vstd::prelude::*;

use crate::entry::{FileMeta, MetaTexts, SourceEntry};

verus! {

/// `FileMetadata::memory_size` of the footer that the entry carries. The implementation behind the
/// trait decides the answer, so any value may come back.
#[verifier::external_body]
pub(crate) fn reported_memory_size(source: &SourceEntry) -> usize {
    source.file_metadata.memory_size()
}

/// `FileMetadata::extra_info` of the footer that the entry carries. The implementation behind the
/// trait decides the answer, so any value may come back.
#[verifier::external_body]
pub(crate) fn reported_extra_info(source: &SourceEntry) -> HashMap<String, String> {
    source.file_metadata.extra_info()
}

/// The texts in the `object_store::ObjectMeta` that an entry owns: location, tag and version.
pub uninterp spec fn carried(source: SourceEntry) -> MetaTexts;

/// The location, tag and version in the entry's `object_store::ObjectMeta`. They are read of public
/// fields of plain data, so the entry alone decides them.
#[verifier::external_body]
fn carried_meta(source: &SourceEntry) -> (meta: FileMeta)
    ensures
        meta@ == carried(*source),
{
    FileMeta {
        location: source.meta.location.to_string(),
        e_tag: source.meta.e_tag.clone(),
        version: source.meta.version.clone(),
    }
}

/// Whether the entry's footer may report `size` bytes when it is asked.
pub closed spec fn may_report(source: SourceEntry, size: usize) -> bool {
    call_ensures(reported_memory_size, (&source,), size)
}

/// Whether the entry's footer may say `info` of itself when it is asked.
pub closed spec fn may_describe(source: SourceEntry, info: HashMap<String, String>) -> bool {
    call_ensures(reported_extra_info, (&source,), info)
}

/// Asks the entry's footer for its size.
pub fn footer_size(source: &SourceEntry) -> (size: usize)
    ensures
        may_report(*source, size),
{
    reported_memory_size(source)
}

/// Asks the entry's footer what it says of itself.
pub fn footer_info(source: &SourceEntry) -> (info: HashMap<String, String>)
    ensures
        may_describe(*source, info),
{
    reported_extra_info(source)
}

/// Reads the entry's metadata.
pub fn file_meta(source: &SourceEntry) -> (meta: FileMeta)
    ensures
        meta@ == carried(*source),
{
    carried_meta(source)
}

/// What a footer may report is what `FileMetadata::memory_size` may return for that entry, unchanged.
pub(crate) proof fn law_reported_size_is_the_answer(source: SourceEntry, size: usize)
    ensures
        may_report(source, size) == call_ensures(reported_memory_size, (&source,), size),
{
}

/// What a footer may say of itself is what `FileMetadata::extra_info` may return for that entry,
/// unchanged.
pub(crate) proof fn law_description_is_the_answer(source: SourceEntry, info: HashMap<String, String>)
    ensures
        may_describe(source, info) == call_ensures(reported_extra_info, (&source,), info),
{
}

} // verus!
