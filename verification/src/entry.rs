//! The values that the cache holds.

use std::collections::HashMap;

use datafusion::execution::cache::cache_manager;
use vstd::prelude::*;

verus! {

/// DataFusion's cached entry. Nothing is claimed of what is inside; the cache carries the value and
/// hands it back, and asks it what [`crate::metadata_object`] says.
#[verifier::external_type_specification]
#[verifier::external_body]
pub struct ExSourceEntry(cache_manager::CachedFileMetadataEntry);

/// `object_store`'s metadata of an object. Only the room that a value of it takes is of interest.
#[verifier::external_type_specification]
#[verifier::external_body]
pub struct ExStoreMeta(object_store::ObjectMeta);

/// A decoded footer, shared, together with the metadata of the file that it was read from.
pub type SourceEntry = cache_manager::CachedFileMetadataEntry;

/// What the cache reads of a file's metadata.
pub struct FileMeta {
    /// The full path to the file.
    pub location: String,
    /// The unique identifier of the file, where the store gives one.
    pub e_tag: Option<String>,
    /// The version indicator of the file, where the store gives one.
    pub version: Option<String>,
}

/// The texts of a file's metadata: location, tag and version.
pub type MetaTexts = (Seq<char>, Option<Seq<char>>, Option<Seq<char>>);

/// A text that may be missing.
pub open spec fn optional_text(text: Option<String>) -> Option<Seq<char>> {
    match text {
        Some(text) => Some(text@),
        None => None,
    }
}

impl View for FileMeta {
    type V = MetaTexts;

    open spec fn view(&self) -> MetaTexts {
        (self.location@, optional_text(self.e_tag), optional_text(self.version))
    }
}

/// One cached entry and the bytes that it is charged with.
pub type Record = (SourceEntry, usize);

/// What a listing of the cache says of one entry.
pub struct FileMetadataCacheEntry {
    /// The cached entry, with the file's metadata.
    pub entry: SourceEntry,
    /// The bytes that the entry is charged with.
    pub size_bytes: usize,
    /// How often the entry was retrieved. The cache does not count retrievals: always zero.
    pub hits: usize,
    /// What the decoded footer says of itself.
    pub extra: HashMap<String, String>,
}

/// The texts of a file's metadata are those of its fields, and one is missing where its field is.
pub proof fn law_meta_texts(meta: FileMeta)
    ensures
        meta@.0 == meta.location@,
        meta.e_tag is None <==> meta@.1 is None,
        meta.e_tag matches Some(text) ==> meta@.1 == Some(text@),
        meta.version is None <==> meta@.2 is None,
        meta.version matches Some(text) ==> meta@.2 == Some(text@),
{
}

} // verus!
