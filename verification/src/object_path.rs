//! Paths of an object store.

use vstd::prelude::*;

verus! {

/// The path that `object_store` makes of a text: its segments without the empty ones, each with the
/// characters escaped that a path does not allow.
pub uninterp spec fn object_path(text: Seq<char>) -> Seq<char>;

/// A character that no path needs to escape.
pub open spec fn is_plain_char(c: char) -> bool {
    ||| 'a' <= c <= 'z'
    ||| 'A' <= c <= 'Z'
    ||| '0' <= c <= '9'
    ||| c == '-' || c == '_' || c == '=' || c == '$' || c == '.'
}

/// A text of plain characters, in segments of which none is empty or starts with a dot.
pub open spec fn is_plain_path(text: Seq<char>) -> bool {
    forall|i: int|
        0 <= i < text.len() ==> {
            &&& #[trigger] text[i] == '/' || is_plain_char(text[i])
            &&& text[i] == '/' ==> i < text.len() - 1
            &&& i == 0 || text[i - 1] == '/' ==> text[i] != '/' && text[i] != '.'
        }
}

/// A text without the slash that it may start with.
pub open spec fn relative(text: Seq<char>) -> Seq<char> {
    if text.len() > 0 && text[0] == '/' {
        text.skip(1)
    } else {
        text
    }
}

/// `object_store::path::Path::from`, and the path's text. The result depends on the text alone. A
/// plain path comes back as it is, and one behind a slash comes back without the slash.
#[verifier::external_body]
pub(crate) fn path_from(text: &str) -> (path: String)
    ensures
        path@ == object_path(text@),
        is_plain_path(relative(text@)) ==> path@ == relative(text@),
{
    String::from(object_store::path::Path::from(text))
}

/// One slash at the start is taken off, and nothing else.
pub proof fn law_relative(text: Seq<char>)
    ensures
        relative(seq!['/'] + text) == text,
        text.len() == 0 || text[0] != '/' ==> relative(text) == text,
{
    assert((seq!['/'] + text).skip(1) =~= text);
}

/// Letters, digits and `-`, `_`, `=`, `$`, `.` are plain, and no other character is.
pub proof fn law_plain_characters(c: char)
    ensures
        is_plain_char(c) <==> 'a' <= c <= 'z' || 'A' <= c <= 'Z' || '0' <= c <= '9' || c == '-' || c
            == '_' || c == '=' || c == '$' || c == '.',
{
}

/// One segment of plain characters that does not start with a dot is a plain path.
pub proof fn law_plain_segment(segment: Seq<char>)
    requires
        segment.len() > 0 ==> segment[0] != '.',
        forall|i: int|
            0 <= i < segment.len() ==> #[trigger] segment[i] != '/' && is_plain_char(segment[i]),
    ensures
        is_plain_path(segment),
{
    assert forall|i: int| 0 <= i < segment.len() implies {
        &&& #[trigger] segment[i] == '/' || is_plain_char(segment[i])
        &&& segment[i] == '/' ==> i < segment.len() - 1
        &&& i == 0 || segment[i - 1] == '/' ==> segment[i] != '/' && segment[i] != '.'
    } by {
        if i > 0 {
            assert(segment[i - 1] != '/');
        }
    }
}

/// Two plain paths that are not empty, joined by a slash, are a plain path.
pub proof fn law_plain_paths_join(first: Seq<char>, second: Seq<char>)
    requires
        first.len() > 0,
        second.len() > 0,
        is_plain_path(first),
        is_plain_path(second),
    ensures
        is_plain_path(first + seq!['/'] + second),
{
    let joined = first + seq!['/'] + second;
    let n = first.len() as int;
    assert forall|i: int| 0 <= i < joined.len() implies {
        &&& #[trigger] joined[i] == '/' || is_plain_char(joined[i])
        &&& joined[i] == '/' ==> i < joined.len() - 1
        &&& i == 0 || joined[i - 1] == '/' ==> joined[i] != '/' && joined[i] != '.'
    } by {
        if i < n {
            assert(joined[i] == first[i]);
            if i > 0 {
                assert(joined[i - 1] == first[i - 1]);
            }
        } else if i == n {
            assert(joined[i - 1] == first[n - 1]);
        } else {
            assert(joined[i] == second[i - n - 1]);
            if i > n + 1 {
                assert(joined[i - 1] == second[i - n - 2]);
            }
        }
    }
}

} // verus!
