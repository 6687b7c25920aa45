//! The key under which a file is cached.
//!
//! A query addresses a file by a path that starts with what belongs to the query: its trace id and
//! the version of the schema that it reads the file with. A separator ends that part. It is cut off,
//! so that every query finds the same file under the same key.

use vstd::prelude::*;
use vstd::string::*;

verus! {

/// What stands between the part of a path that belongs to a query and the file's own path.
pub const TRACE_ID_SEPARATOR: &'static str = "/$$/";

/// Whether `pattern` stands in `text` at `at`.
pub open spec fn occurs_at(text: Seq<char>, pattern: Seq<char>, at: int) -> bool {
    &&& 0 <= at
    &&& at + pattern.len() <= text.len()
    &&& text.subrange(at, at + pattern.len()) == pattern
}

/// The first position from `from` on at which `pattern` stands in `text`.
pub open spec fn find_from(text: Seq<char>, pattern: Seq<char>, from: int) -> Option<int>
    decreases text.len() + 1 - from,
{
    if from + pattern.len() > text.len() {
        None
    } else if occurs_at(text, pattern, from) {
        Some(from)
    } else {
        find_from(text, pattern, from + 1)
    }
}

/// The first position at which `pattern` stands in `text`.
pub open spec fn find(text: Seq<char>, pattern: Seq<char>) -> Option<int> {
    find_from(text, pattern, 0)
}

/// Where the part of `path` that all queries share starts: at the first separator, or at the start of
/// a path without one.
pub open spec fn key_start(path: Seq<char>) -> int {
    match find(path, TRACE_ID_SEPARATOR@) {
        Some(separator) => separator,
        None => 0,
    }
}

/// The key under which the file at `path` is cached.
pub open spec fn cache_key(path: Seq<char>) -> Seq<char> {
    path.skip(key_start(path))
}

/// A position that the search gives is the first one.
pub proof fn lemma_find_from(text: Seq<char>, pattern: Seq<char>, from: int)
    requires
        0 <= from,
    ensures
        match find_from(text, pattern, from) {
            Some(at) => {
                &&& from <= at
                &&& occurs_at(text, pattern, at)
                &&& forall|i: int| from <= i < at ==> !occurs_at(text, pattern, i)
            },
            None => forall|i: int| from <= i ==> !occurs_at(text, pattern, i),
        },
    decreases text.len() + 1 - from,
{
    if from + pattern.len() <= text.len() && !occurs_at(text, pattern, from) {
        lemma_find_from(text, pattern, from + 1);
    }
}

/// The first position at which a pattern stands is the one that the search gives.
pub proof fn lemma_find_is(text: Seq<char>, pattern: Seq<char>, at: int)
    requires
        occurs_at(text, pattern, at),
        forall|i: int| 0 <= i < at ==> !occurs_at(text, pattern, i),
    ensures
        find(text, pattern) == Some(at),
{
    lemma_find_from(text, pattern, 0);
}

/// One file has one key: two paths that agree from the first separator on have the same key,
/// whatever stands before it.
pub proof fn law_one_key_per_file(first: Seq<char>, second: Seq<char>)
    requires
        find(first, TRACE_ID_SEPARATOR@) is Some,
        find(second, TRACE_ID_SEPARATOR@) is Some,
        first.skip(find(first, TRACE_ID_SEPARATOR@)->0) == second.skip(
            find(second, TRACE_ID_SEPARATOR@)->0,
        ),
    ensures
        cache_key(first) == cache_key(second),
{
}

/// The query's part is cut off: behind a `prefix` in which no separator starts, the key is the rest
/// of the path, from the separator on.
pub proof fn law_key_drops_query_prefix(prefix: Seq<char>, shared: Seq<char>)
    requires
        occurs_at(shared, TRACE_ID_SEPARATOR@, 0),
        forall|i: int|
            0 <= i < prefix.len() ==> !occurs_at(prefix + shared, TRACE_ID_SEPARATOR@, i),
    ensures
        cache_key(prefix + shared) == shared,
{
    let path = prefix + shared;
    let n = prefix.len() as int;
    let width = TRACE_ID_SEPARATOR@.len() as int;
    assert(path.subrange(n, n + width) =~= shared.subrange(0, width));
    lemma_find_is(path, TRACE_ID_SEPARATOR@, n);
    assert(path.skip(n) =~= shared);
}

/// A path without separator is its own key.
pub proof fn law_key_of_plain_path(path: Seq<char>)
    requires
        find(path, TRACE_ID_SEPARATOR@) is None,
    ensures
        cache_key(path) == path,
{
    assert(path.skip(0) =~= path);
}

/// A key is its own key.
pub proof fn law_key_of_key(path: Seq<char>)
    ensures
        cache_key(cache_key(path)) == cache_key(path),
{
    lemma_find_from(path, TRACE_ID_SEPARATOR@, 0);
    match find(path, TRACE_ID_SEPARATOR@) {
        None => {
            law_key_of_plain_path(path);
        },
        Some(separator) => {
            let key = cache_key(path);
            let width = TRACE_ID_SEPARATOR@.len() as int;
            assert(key.subrange(0, width) =~= path.subrange(separator, separator + width));
            lemma_find_is(key, TRACE_ID_SEPARATOR@, 0);
            assert(key.skip(0) =~= key);
        },
    }
}

/// The characters of a text.
fn characters(text: &str) -> (chars: Vec<char>)
    ensures
        chars@ == text@,
{
    let mut chars: Vec<char> = Vec::new();
    for c in it: text.chars()
        invariant
            it.seq() == text@,
            chars@ == text@.take(it.index() as int),
    {
        chars.push(c);
    }
    chars
}

/// Whether `pattern` stands in `text` at `at`.
fn stands_at(text: &Vec<char>, pattern: &Vec<char>, at: usize) -> (found: bool)
    requires
        at + pattern@.len() <= text@.len(),
    ensures
        found == occurs_at(text@, pattern@, at as int),
{
    let mut i: usize = 0;
    while i < pattern.len()
        invariant
            at + pattern@.len() <= text.len(),
            i <= pattern@.len(),
            forall|j: int| 0 <= j < i ==> text@[at + j] == pattern@[j],
        decreases pattern@.len() - i,
    {
        if text[at + i] != pattern[i] {
            proof {
                let there = text@.subrange(at as int, at + pattern@.len());
                assert(there[i as int] != pattern@[i as int]);
            }
            return false;
        }
        i = i + 1;
    }
    assert(text@.subrange(at as int, at + pattern@.len()) =~= pattern@);
    true
}

/// The first position at which `pattern` stands in `text`.
fn find_in(text: &Vec<char>, pattern: &Vec<char>) -> (found: Option<usize>)
    requires
        0 < pattern@.len(),
    ensures
        match found {
            Some(at) => find(text@, pattern@) == Some(at as int),
            None => find(text@, pattern@) is None,
        },
{
    let mut at: usize = 0;
    while at < text.len() && pattern.len() <= text.len() - at
        invariant
            at <= text@.len(),
            0 < pattern@.len(),
            find_from(text@, pattern@, at as int) == find(text@, pattern@),
        decreases text@.len() - at,
    {
        if stands_at(text, pattern, at) {
            return Some(at);
        }
        at = at + 1;
    }
    None
}

/// The key under which the file at `path` is cached.
pub fn key_of(path: &str) -> (key: String)
    ensures
        key@ == cache_key(path@),
{
    proof {
        reveal_strlit("/$$/");
    }
    let text = characters(path);
    let separator = characters(TRACE_ID_SEPARATOR);
    match find_in(&text, &separator) {
        Some(at) => {
            proof {
                lemma_find_from(text@, separator@, 0);
            }
            assert(path@.subrange(at as int, text@.len() as int) =~= path@.skip(at as int));
            path.substring_char(at, text.len()).to_owned()
        },
        None => {
            assert(path@.skip(0) =~= path@);
            path.to_owned()
        },
    }
}

// What a key is, character by character.

/// A pattern stands at a position exactly where each of its characters does.
pub proof fn law_occurrence_by_character(text: Seq<char>, pattern: Seq<char>, at: int)
    ensures
        occurs_at(text, pattern, at) <==> 0 <= at && at + pattern.len() <= text.len() && forall|
            j: int,
        |
            0 <= j < pattern.len() ==> text[at + j] == #[trigger] pattern[j],
{
    if 0 <= at && at + pattern.len() <= text.len() {
        let there = text.subrange(at, at + pattern.len());
        if occurs_at(text, pattern, at) {
            assert forall|j: int| 0 <= j < pattern.len() implies text[at + j]
                == #[trigger] pattern[j] by {
                assert(there[j] == pattern[j]);
            }
        }
        if forall|j: int| 0 <= j < pattern.len() ==> text[at + j] == #[trigger] pattern[j] {
            assert(there =~= pattern);
        }
    }
}

/// The four characters of a separator, where they stand.
proof fn lemma_separator_stands(path: Seq<char>, at: int)
    ensures
        occurs_at(path, TRACE_ID_SEPARATOR@, at) <==> 0 <= at <= path.len() - 4 && path.skip(
            at,
        ).take(4) == "/$$/"@,
{
    reveal_strlit("/$$/");
    if 0 <= at <= path.len() - 4 {
        assert(path.skip(at).take(4) =~= path.subrange(at, at + 4));
    }
}

/// The key is what follows the query's part, from `/$$/` on, however long it is: the key of a prefix,
/// the four characters and a rest is the four characters and the rest, where they do not stand
/// earlier.
pub proof fn law_key_is_separator_and_rest(prefix: Seq<char>, rest: Seq<char>)
    requires
        forall|i: int|
            0 <= i < prefix.len() ==> (#[trigger] (prefix + "/$$/"@ + rest).skip(i)).take(4)
                != "/$$/"@,
    ensures
        cache_key(prefix + "/$$/"@ + rest) == "/$$/"@ + rest,
{
    let path = prefix + "/$$/"@ + rest;
    let n = prefix.len() as int;
    reveal_strlit("/$$/");
    assert(path.skip(n) =~= "/$$/"@ + rest);
    assert(path.skip(n).take(4) =~= "/$$/"@);
    lemma_separator_stands(path, n);
    assert forall|i: int| 0 <= i < n implies !occurs_at(path, TRACE_ID_SEPARATOR@, i) by {
        lemma_separator_stands(path, i);
    }
    lemma_find_is(path, TRACE_ID_SEPARATOR@, n);
}

/// A path in which the four characters `/$$/` stand nowhere is its own key, however long it is.
pub proof fn law_key_without_separator(path: Seq<char>)
    requires
        forall|i: int|
            0 <= i <= path.len() - 4 ==> (#[trigger] path.skip(i)).take(4) != "/$$/"@,
    ensures
        cache_key(path) == path,
{
    lemma_find_from(path, TRACE_ID_SEPARATOR@, 0);
    if find(path, TRACE_ID_SEPARATOR@) is Some {
        lemma_separator_stands(path, find(path, TRACE_ID_SEPARATOR@)->0);
    }
    law_key_of_plain_path(path);
}

/// Whatever two queries put before `/$$/`, the key of a file is the same: no part of either prefix is
/// in it.
pub proof fn law_prefixes_do_not_matter(first: Seq<char>, second: Seq<char>, rest: Seq<char>)
    requires
        forall|i: int|
            0 <= i < first.len() ==> (#[trigger] (first + "/$$/"@ + rest).skip(i)).take(4)
                != "/$$/"@,
        forall|i: int|
            0 <= i < second.len() ==> (#[trigger] (second + "/$$/"@ + rest).skip(i)).take(4)
                != "/$$/"@,
    ensures
        cache_key(first + "/$$/"@ + rest) == cache_key(second + "/$$/"@ + rest),
{
    law_key_is_separator_and_rest(first, rest);
    law_key_is_separator_and_rest(second, rest);
}

/// Files that differ behind the separator have different keys.
pub proof fn law_files_have_their_own_keys(
    first: Seq<char>,
    second: Seq<char>,
    one: Seq<char>,
    other: Seq<char>,
)
    requires
        forall|i: int|
            0 <= i < first.len() ==> (#[trigger] (first + "/$$/"@ + one).skip(i)).take(4)
                != "/$$/"@,
        forall|i: int|
            0 <= i < second.len() ==> (#[trigger] (second + "/$$/"@ + other).skip(i)).take(4)
                != "/$$/"@,
        one != other,
    ensures
        cache_key(first + "/$$/"@ + one) != cache_key(second + "/$$/"@ + other),
{
    law_key_is_separator_and_rest(first, one);
    law_key_is_separator_and_rest(second, other);
    assert(("/$$/"@ + one).skip("/$$/"@.len() as int) =~= one);
    assert(("/$$/"@ + other).skip("/$$/"@.len() as int) =~= other);
}

} // verus!
