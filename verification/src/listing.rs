//! A listing of cached entries, each path once.

use vstd::hash_set::StringHashSet;
use vstd::prelude::*;

use crate::entry::FileMetadataCacheEntry;

verus! {

/// A path and what is listed under it.
pub type Row = (String, FileMetadataCacheEntry);

/// What the rows say, path by path. Of several rows with one path, the last one counts.
pub open spec fn by_path(rows: Seq<Row>) -> Map<Seq<char>, FileMetadataCacheEntry>
    decreases rows.len(),
{
    if rows.len() == 0 {
        Map::empty()
    } else {
        by_path(rows.drop_last()).insert(rows.last().0@, rows.last().1)
    }
}

/// No two rows have the same path.
pub open spec fn paths_differ(rows: Seq<Row>) -> bool {
    forall|i: int, j: int|
        0 <= i < j < rows.len() ==> (#[trigger] rows[i]).0@ != (#[trigger] rows[j]).0@
}

/// The paths that are listed are those of the rows.
pub proof fn lemma_by_path_keys(rows: Seq<Row>, path: Seq<char>)
    ensures
        by_path(rows).contains_key(path) <==> exists|i: int|
            0 <= i < rows.len() && (#[trigger] rows[i]).0@ == path,
    decreases rows.len(),
{
    if rows.len() > 0 {
        let shorter = rows.drop_last();
        lemma_by_path_keys(shorter, path);
        if exists|i: int| 0 <= i < shorter.len() && (#[trigger] shorter[i]).0@ == path {
            let i = choose|i: int| 0 <= i < shorter.len() && (#[trigger] shorter[i]).0@ == path;
            assert(rows[i].0@ == path);
        }
        if exists|i: int| 0 <= i < rows.len() && (#[trigger] rows[i]).0@ == path {
            let i = choose|i: int| 0 <= i < rows.len() && (#[trigger] rows[i]).0@ == path;
            if i < shorter.len() {
                assert(shorter[i].0@ == path);
            }
        }
    }
}

/// What is listed under a path stands in a row with that path.
pub proof fn lemma_by_path_row(rows: Seq<Row>, path: Seq<char>) -> (i: int)
    requires
        by_path(rows).contains_key(path),
    ensures
        0 <= i < rows.len(),
        rows[i].0@ == path,
        rows[i].1 == by_path(rows)[path],
    decreases rows.len(),
{
    if rows.last().0@ == path {
        rows.len() - 1
    } else {
        lemma_by_path_row(rows.drop_last(), path)
    }
}

/// Where the paths differ, every row is what is listed under its path.
pub proof fn law_listing_is_its_rows(rows: Seq<Row>, i: int)
    requires
        paths_differ(rows),
        0 <= i < rows.len(),
    ensures
        by_path(rows).contains_key(rows[i].0@),
        by_path(rows)[rows[i].0@] == rows[i].1,
{
    lemma_by_path_keys(rows, rows[i].0@);
    let j = lemma_by_path_row(rows, rows[i].0@);
    if i < j {
        assert(rows[i].0@ != rows[j].0@);
    } else if j < i {
        assert(rows[j].0@ != rows[i].0@);
    }
}

/// Where the paths differ, there are as many rows as paths.
pub proof fn law_listing_length(rows: Seq<Row>)
    requires
        paths_differ(rows),
    ensures
        by_path(rows).dom().finite(),
        by_path(rows).len() == rows.len(),
    decreases rows.len(),
{
    if rows.len() > 0 {
        let shorter = rows.drop_last();
        law_listing_length(shorter);
        lemma_by_path_keys(shorter, rows.last().0@);
        assert forall|i: int| 0 <= i < shorter.len() implies (#[trigger] shorter[i]).0@
            != rows.last().0@ by {
            assert(rows[i].0@ != rows[rows.len() - 1].0@);
        }
    }
}

/// The rows with each path once. Of several rows with one path, the last one is kept.
pub fn index_by_path(rows: Vec<Row>) -> (listing: Vec<Row>)
    ensures
        paths_differ(listing@),
        by_path(listing@) == by_path(rows@),
{
    let ghost all = rows@;
    let mut rows = rows;
    let mut listing: Vec<Row> = Vec::new();
    let mut seen = StringHashSet::new();
    assert(seen@ =~= by_path(listing@).dom());
    assert(by_path(rows@).union_prefer_right(by_path(listing@)) =~= by_path(all));
    while rows.len() > 0
        invariant
            paths_differ(listing@),
            seen@ == by_path(listing@).dom(),
            by_path(rows@).union_prefer_right(by_path(listing@)) == by_path(all),
        decreases rows@.len(),
    {
        let ghost left = rows@;
        let ghost kept = listing@;
        if let Some(row) = rows.pop() {
            assert(rows@ =~= left.drop_last());
            let ghost path = row.0@;
            let ghost entry = row.1;
            if seen.contains(row.0.as_str()) {
                assert(by_path(rows@).union_prefer_right(by_path(kept)) =~= by_path(
                    left,
                ).union_prefer_right(by_path(kept)));
            } else {
                proof {
                    assert forall|j: int| 0 <= j < kept.len() implies (#[trigger] kept[j]).0@
                        != path by {
                        lemma_by_path_keys(kept, path);
                    }
                }
                seen.insert(row.0.clone());
                listing.push(row);
                assert(listing@.drop_last() =~= kept);
                assert(by_path(listing@) == by_path(kept).insert(path, entry));
                assert(seen@ =~= by_path(listing@).dom());
                assert(by_path(rows@).union_prefer_right(by_path(listing@)) =~= by_path(
                    left,
                ).union_prefer_right(by_path(kept)));
            }
        }
    }
    assert(by_path(rows@).union_prefer_right(by_path(listing@)) =~= by_path(listing@));
    listing
}

/// Of several rows with one path the last one counts, and each path of a row is listed.
pub proof fn law_last_row_counts(rows: Seq<Row>, i: int)
    requires
        0 <= i < rows.len(),
        forall|j: int| i < j < rows.len() ==> (#[trigger] rows[j]).0@ != rows[i].0@,
    ensures
        by_path(rows).contains_key(rows[i].0@),
        by_path(rows)[rows[i].0@] == rows[i].1,
    decreases rows.len(),
{
    if i < rows.len() - 1 {
        let shorter = rows.drop_last();
        assert forall|j: int| i < j < shorter.len() implies (#[trigger] shorter[j]).0@
            != shorter[i].0@ by {
            assert(rows[j].0@ != rows[i].0@);
        }
        law_last_row_counts(shorter, i);
        assert(rows[rows.len() - 1].0@ != rows[i].0@);
    }
}

/// A path that no row has is not listed.
pub proof fn law_only_paths_of_rows(rows: Seq<Row>, path: Seq<char>)
    requires
        forall|i: int| 0 <= i < rows.len() ==> (#[trigger] rows[i]).0@ != path,
    ensures
        !by_path(rows).contains_key(path),
{
    lemma_by_path_keys(rows, path);
}

/// The paths of rows differ exactly where no path stands at two places.
pub proof fn law_paths_differ(rows: Seq<Row>)
    ensures
        paths_differ(rows) <==> forall|i: int, j: int|
            #![trigger rows[i], rows[j]]
            0 <= i < rows.len() && 0 <= j < rows.len() && rows[i].0@ == rows[j].0@ ==> i == j,
{
    if paths_differ(rows) {
        assert forall|i: int, j: int|
            #![trigger rows[i], rows[j]]
            0 <= i < rows.len() && 0 <= j < rows.len() && rows[i].0@ == rows[j].0@ implies i
            == j by {
            if i < j {
                assert(rows[i].0@ != rows[j].0@);
            } else if j < i {
                assert(rows[j].0@ != rows[i].0@);
            }
        }
    }
}

} // verus!
