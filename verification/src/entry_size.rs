//! What a cached entry is charged with.

use vstd::layout::size_of;
use vstd::prelude::*;
use vstd::utf8::encode_utf8;

use crate::arith::{
    law_wrap_usize_is_congruent, lemma_wrap_usize_add, lemma_wrap_usize_fits, wrap_usize,
};
use crate::entry::{optional_text, FileMeta, MetaTexts};

verus! {

/// The header of a shared value (two counters) and a slot of the map (hash and slot metadata). A
/// conservative constant, so that the memory in use is not systematically underestimated.
pub const ENTRY_OVERHEAD: usize = 64;

/// The bytes of a text.
pub open spec fn text_bytes(text: Seq<char>) -> nat {
    encode_utf8(text).len()
}

/// The bytes of a text that may be missing, with its header.
pub open spec fn optional_text_bytes(text: Option<Seq<char>>) -> nat {
    match text {
        Some(text) => size_of::<String>() + text_bytes(text),
        None => 0,
    }
}

/// The bytes that an entry under `key` takes whose footer reports `reported` bytes. The key is
/// stored twice, in the map and in the queue; the charge itself is stored too.
pub open spec fn entry_bytes(key: Seq<char>, meta: MetaTexts, reported: usize) -> nat {
    let (location, e_tag, version) = meta;
    2 * (size_of::<String>() + text_bytes(key)) + size_of::<object_store::ObjectMeta>()
        + text_bytes(location) + optional_text_bytes(e_tag) + optional_text_bytes(
        version,
    ) + reported as nat + size_of::<usize>() + ENTRY_OVERHEAD as nat
}

/// What the entry is charged with: the bytes that it takes, as a machine word.
pub open spec fn entry_size(key: Seq<char>, meta: MetaTexts, reported: usize) -> usize {
    wrap_usize(entry_bytes(key, meta, reported) as int)
}

/// An entry that the machine can address is charged with exactly what it takes.
pub proof fn law_entry_size_exact(key: Seq<char>, meta: MetaTexts, reported: usize)
    requires
        entry_bytes(key, meta, reported) <= usize::MAX,
    ensures
        entry_size(key, meta, reported) == entry_bytes(key, meta, reported),
        entry_size(key, meta, reported) >= reported + ENTRY_OVERHEAD,
{
    lemma_wrap_usize_fits(entry_bytes(key, meta, reported) as int);
}

/// Adds the bytes of a text that may be missing to a sum.
fn add_optional_text(size: usize, text: &Option<String>, Ghost(sum): Ghost<int>) -> (total: usize)
    requires
        size == wrap_usize(sum),
    ensures
        total == wrap_usize(sum + optional_text_bytes(optional_text(*text))),
{
    match text {
        Some(text) => {
            let header = std::mem::size_of::<String>();
            let bytes = text.as_str().as_bytes().len();
            proof {
                lemma_wrap_usize_add(sum, header);
                lemma_wrap_usize_add(sum + header, bytes);
            }
            size.wrapping_add(header).wrapping_add(bytes)
        },
        None => size,
    }
}

/// What an entry under `key` is charged with whose footer reports `reported` bytes.
pub fn estimate_entry_size(key: &str, meta: &FileMeta, reported: usize) -> (size: usize)
    ensures
        size == entry_size(key@, meta@, reported),
{
    let header = std::mem::size_of::<String>();
    let key_bytes = key.as_bytes().len();
    let meta_bytes = std::mem::size_of::<object_store::ObjectMeta>();
    let location_bytes = meta.location.as_str().as_bytes().len();
    let charge_bytes = std::mem::size_of::<usize>();

    let ghost mut sum: int = header as int;
    proof {
        lemma_wrap_usize_fits(sum);
        lemma_wrap_usize_add(sum, key_bytes);
        lemma_wrap_usize_add(sum + key_bytes, header);
        lemma_wrap_usize_add(sum + key_bytes + header, key_bytes);
        lemma_wrap_usize_add(sum + key_bytes + header + key_bytes, meta_bytes);
        lemma_wrap_usize_add(sum + key_bytes + header + key_bytes + meta_bytes, location_bytes);
        sum = sum + key_bytes + header + key_bytes + meta_bytes + location_bytes;
    }
    // The key is stored both in the map and in the eviction queue.
    let size = header.wrapping_add(key_bytes).wrapping_add(header).wrapping_add(key_bytes);
    let size = size.wrapping_add(meta_bytes).wrapping_add(location_bytes);
    let size = add_optional_text(size, &meta.e_tag, Ghost(sum));
    let ghost sum = sum + optional_text_bytes(optional_text(meta.e_tag));
    let size = add_optional_text(size, &meta.version, Ghost(sum));
    let ghost sum = sum + optional_text_bytes(optional_text(meta.version));
    proof {
        lemma_wrap_usize_add(sum, reported);
        lemma_wrap_usize_add(sum + reported, charge_bytes);
        lemma_wrap_usize_add(sum + reported + charge_bytes, ENTRY_OVERHEAD);
    }
    // The decoded footer itself dominates.
    size.wrapping_add(reported).wrapping_add(charge_bytes).wrapping_add(ENTRY_OVERHEAD)
}

// What each part of an entry adds to its charge.

/// The footer is charged in full: what one footer reports more than another, its entry takes more,
/// byte for byte.
pub proof fn law_footer_is_charged_in_full(
    key: Seq<char>,
    meta: MetaTexts,
    reported: usize,
    other: usize,
)
    ensures
        entry_bytes(key, meta, reported) - entry_bytes(key, meta, other) == reported - other,
{
}

/// The key is charged twice, by the bytes of its text.
pub proof fn law_key_is_charged_twice(
    key: Seq<char>,
    other: Seq<char>,
    meta: MetaTexts,
    reported: usize,
)
    ensures
        entry_bytes(key, meta, reported) - entry_bytes(other, meta, reported) == 2 * (encode_utf8(
            key,
        ).len() - encode_utf8(other).len()),
{
}

/// The location is charged once, by the bytes of its text.
pub proof fn law_location_is_charged_once(
    key: Seq<char>,
    location: Seq<char>,
    other: Seq<char>,
    e_tag: Option<Seq<char>>,
    version: Option<Seq<char>>,
    reported: usize,
)
    ensures
        entry_bytes(key, (location, e_tag, version), reported) - entry_bytes(
            key,
            (other, e_tag, version),
            reported,
        ) == encode_utf8(location).len() - encode_utf8(other).len(),
{
}

/// A tag adds a string's header and the bytes of its text, whatever else the entry has.
pub proof fn law_tag_is_charged(
    key: Seq<char>,
    location: Seq<char>,
    e_tag: Seq<char>,
    version: Option<Seq<char>>,
    reported: usize,
)
    ensures
        entry_bytes(key, (location, Some(e_tag), version), reported) - entry_bytes(
            key,
            (location, None, version),
            reported,
        ) == size_of::<String>() + encode_utf8(e_tag).len(),
{
}

/// A version adds a string's header and the bytes of its text, whatever else the entry has.
pub proof fn law_version_is_charged(
    key: Seq<char>,
    location: Seq<char>,
    e_tag: Option<Seq<char>>,
    version: Seq<char>,
    reported: usize,
)
    ensures
        entry_bytes(key, (location, e_tag, Some(version)), reported) - entry_bytes(
            key,
            (location, e_tag, None),
            reported,
        ) == size_of::<String>() + encode_utf8(version).len(),
{
}

/// What remains of the charge of an entry beside its texts and its footer: two string headers for the
/// key, the metadata, the charge itself, and 64 bytes.
pub proof fn law_bare_entry(key: Seq<char>, location: Seq<char>, reported: usize)
    ensures
        entry_bytes(key, (location, None, None), reported) - 2 * encode_utf8(key).len()
            - encode_utf8(location).len() - reported == 2 * size_of::<String>() + size_of::<
            object_store::ObjectMeta,
        >() + size_of::<usize>() + 64,
{
}

/// The charge differs from the bytes that an entry takes by a multiple of the number of machine words
/// only.
pub proof fn law_charge_is_congruent(key: Seq<char>, meta: MetaTexts, reported: usize)
    ensures
        (entry_bytes(key, meta, reported) - entry_size(key, meta, reported)) % (usize::MAX + 1)
            == 0,
{
    law_wrap_usize_is_congruent(entry_bytes(key, meta, reported) as int);
}

} // verus!
