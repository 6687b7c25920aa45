//! The terms that are read ahead, field by field.

use vstd::prelude::*;

verus! {

/// A `hashbrown::HashMap` from the number of a field to the field's terms, each with whether the
/// positions of its occurrences are needed. Only the contracts below are known of it.
#[verifier::external_body]
pub struct TermMap {
    terms: hashbrown::HashMap<u32, hashbrown::HashMap<Vec<u8>, bool>>,
}

/// What a term map holds: under each field, whether positions are needed, by the term's bytes.
pub uninterp spec fn planned(map: TermMap) -> Map<u32, Map<Seq<u8>, bool>>;

/// The terms with one more.
pub open spec fn with_term(
    terms: Map<u32, Map<Seq<u8>, bool>>,
    field: u32,
    term: Seq<u8>,
    need_position: bool,
) -> Map<u32, Map<Seq<u8>, bool>> {
    let of_field = if terms.contains_key(field) {
        terms[field]
    } else {
        Map::empty()
    };
    terms.insert(field, of_field.insert(term, need_position))
}

/// Whether a term is among the terms, and needs its positions as said.
pub open spec fn has_term(
    terms: Map<u32, Map<Seq<u8>, bool>>,
    field: u32,
    term: Seq<u8>,
    need_position: bool,
) -> bool {
    terms.contains_key(field) && terms[field].contains_key(term) && terms[field][term]
        == need_position
}

/// `hashbrown::HashMap::new`: the new map holds nothing.
#[verifier::external_body]
pub(crate) fn new_terms() -> (map: TermMap)
    ensures
        planned(map) == (Map::<u32, Map<Seq<u8>, bool>>::empty()),
{
    TermMap { terms: hashbrown::HashMap::new() }
}

/// `hashbrown::HashMap::entry`, `or_default` and `insert`: the term is put under its field, in place
/// of an equal one.
#[verifier::external_body]
pub(crate) fn add_term(map: &mut TermMap, field: u32, term: Vec<u8>, need_position: bool)
    ensures
        planned(*final(map)) == with_term(planned(*old(map)), field, term@, need_position),
{
    map.terms.entry(field).or_default().insert(term, need_position);
}

/// `hashbrown::HashMap::iter`, of the fields and of each field's terms: every term once, in an
/// order that is left open.
#[verifier::external_body]
pub(crate) fn list_terms(map: &TermMap) -> (listed: Vec<(u32, Vec<u8>, bool)>)
    ensures
        forall|i: int|
            0 <= i < listed@.len() ==> has_term(
                planned(*map),
                (#[trigger] listed@[i]).0,
                listed@[i].1@,
                listed@[i].2,
            ),
        forall|i: int, j: int|
            0 <= i < j < listed@.len() ==> (#[trigger] listed@[i]).0 != (#[trigger] listed@[j]).0
                || listed@[i].1@ != listed@[j].1@,
        forall|field: u32, term: Seq<u8>, need_position: bool| #[trigger]
            has_term(planned(*map), field, term, need_position) ==> exists|i: int|
                0 <= i < listed@.len() && (#[trigger] listed@[i]).0 == field && listed@[i].1@
                    == term,
{
    map.terms.iter().flat_map(
        |(field, terms)| terms.iter().map(|(term, need)| (*field, term.clone(), *need)),
    ).collect()
}

/// A term that was added is there as it was added last, and every other term is as it was.
pub proof fn law_added_term(
    terms: Map<u32, Map<Seq<u8>, bool>>,
    field: u32,
    term: Seq<u8>,
    need_position: bool,
    other_field: u32,
    other_term: Seq<u8>,
)
    ensures
        ({
            let after = with_term(terms, field, term, need_position);
            let there = terms.contains_key(other_field) && terms[other_field].contains_key(
                other_term,
            );
            let there_after = after.contains_key(other_field) && after[other_field].contains_key(
                other_term,
            );
            if other_field == field && other_term == term {
                there_after && after[field][term] == need_position
            } else {
                there_after == there && (there ==> after[other_field][other_term]
                    == terms[other_field][other_term])
            }
        }),
{
}

/// A term is among the terms exactly where its field's terms hold it, with what is said of it.
pub proof fn law_has_term(
    terms: Map<u32, Map<Seq<u8>, bool>>,
    field: u32,
    term: Seq<u8>,
    need_position: bool,
)
    ensures
        has_term(terms, field, term, need_position) <==> terms.contains_key(field)
            && terms[field].contains_key(term) && terms[field][term] == need_position,
{
}

} // verus!
