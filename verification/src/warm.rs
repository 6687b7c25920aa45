//! What is read of a full-text index ahead of a search.
//!
//! A plan names three things: fields whose postings are read whole, single terms, and the columns
//! that collectors need. A search waits less for storage when these are read before it starts.

use std::collections::HashSet;

use tantivy::schema::Schema;
use vstd::prelude::*;

use crate::index_schema::{field_named, field_of_term, leading_number, schema_fields};
use crate::term_map::{add_term, has_term, list_terms, new_terms, planned, with_term, TermMap};
use crate::text::texts;

verus! {

broadcast use vstd::std_specs::hash::group_hash_axioms;

/// The column that holds a record's time.
pub const TIMESTAMP_COL_NAME: &'static str = "_timestamp";

/// How a search over one file can be answered from the index alone.
pub enum IndexOptimizeMode {
    /// The newest or oldest records: how many, and whether in ascending order.
    SimpleSelect(usize, bool),
    /// The number of records.
    SimpleCount,
    /// The number of records in each span of time: start, width, number of spans, and offset.
    SimpleHistogram(i64, u64, usize, i64),
    /// The same for each value of a column, which comes last.
    SimpleMultiHistogram(i64, u64, usize, i64, String),
    /// The most or least frequent values of columns: which, how many, and whether ascending.
    SimpleTopN(Vec<String>, usize, bool),
    /// The distinct values of a field: which, how many, and whether ascending.
    SimpleDistinct(String, usize, bool),
}

/// A term that a query looks up.
pub struct QueryTerm {
    /// The number of the term's field.
    pub field: u32,
    /// The term, serialised, with its field.
    pub bytes: Vec<u8>,
    /// Whether the query needs the positions of the term's occurrences.
    pub need_position: bool,
}

impl QueryTerm {
    /// The field is the one that the serialised term starts with.
    pub open spec fn wf(self) -> bool {
        4 <= self.bytes@.len() && self.field == leading_number(self.bytes@)
    }

    /// A term from its serialised form, which starts with the number of its field.
    pub fn new(bytes: Vec<u8>, need_position: bool) -> (term: Self)
        requires
            4 <= bytes@.len(),
        ensures
            term.wf(),
            term.field == leading_number(bytes@),
            term.bytes@ == bytes@,
            term.need_position == need_position,
    {
        let field: u32 = field_of_term(&bytes);
        QueryTerm { field, bytes, need_position }
    }
}

/// The terms of a query, field by field. Of equal terms the last one says whether positions are
/// needed.
pub open spec fn terms_of(terms: Seq<QueryTerm>) -> Map<u32, Map<Seq<u8>, bool>>
    decreases terms.len(),
{
    if terms.len() == 0 {
        Map::empty()
    } else {
        with_term(
            terms_of(terms.drop_last()),
            terms.last().field,
            terms.last().bytes@,
            terms.last().need_position,
        )
    }
}

/// Whether two terms are one: the same bytes of the same field.
pub open spec fn same_term(first: QueryTerm, second: QueryTerm) -> bool {
    first.field == second.field && first.bytes@ == second.bytes@
}

/// Every term that a query looks up is planned, and where it looks one up several times, the last
/// time says whether positions are needed.
pub proof fn law_last_visit_decides(terms: Seq<QueryTerm>, i: int)
    requires
        0 <= i < terms.len(),
        forall|j: int| i < j < terms.len() ==> !same_term(terms[i], #[trigger] terms[j]),
    ensures
        has_term(
            terms_of(terms),
            terms[i].field,
            terms[i].bytes@,
            terms[i].need_position,
        ),
    decreases terms.len(),
{
    if i < terms.len() - 1 {
        let shorter = terms.drop_last();
        assert(shorter[i] == terms[i]);
        assert forall|j: int| i < j < shorter.len() implies !same_term(
            shorter[i],
            #[trigger] shorter[j],
        ) by {
            assert(shorter[j] == terms[j]);
        }
        law_last_visit_decides(shorter, i);
        assert(!same_term(terms[i], terms[terms.len() - 1]));
    }
}

/// Only terms that a query looks up are planned: each is one of the visits, and the last of it.
pub proof fn law_only_visited_terms(
    terms: Seq<QueryTerm>,
    field: u32,
    term: Seq<u8>,
    need_position: bool,
) -> (i: int)
    requires
        has_term(terms_of(terms), field, term, need_position),
    ensures
        0 <= i < terms.len(),
        terms[i].field == field,
        terms[i].bytes@ == term,
        terms[i].need_position == need_position,
        forall|j: int| i < j < terms.len() ==> !same_term(terms[i], #[trigger] terms[j]),
    decreases terms.len(),
{
    let last = terms.last();
    if last.field == field && last.bytes@ == term {
        terms.len() - 1
    } else {
        let shorter = terms.drop_last();
        let i = law_only_visited_terms(shorter, field, term, need_position);
        assert forall|j: int| i < j < terms.len() implies !same_term(
            terms[i],
            #[trigger] terms[j],
        ) by {
            if j < shorter.len() {
                assert(shorter[j] == terms[j]);
            }
        }
        i
    }
}

/// A planned term stands under its own field only, the one that it starts with.
pub proof fn law_term_stands_under_its_field(
    terms: Seq<QueryTerm>,
    field: u32,
    term: Seq<u8>,
    need_position: bool,
)
    requires
        forall|i: int| 0 <= i < terms.len() ==> (#[trigger] terms[i]).wf(),
        has_term(terms_of(terms), field, term, need_position),
    ensures
        field == leading_number(term),
{
    let i = law_only_visited_terms(terms, field, term, need_position);
    assert(terms[i].wf());
}

/// The field whose distinct values are asked for.
pub open spec fn distinct_field(rule: Option<IndexOptimizeMode>) -> Option<Seq<char>> {
    match rule {
        Some(IndexOptimizeMode::SimpleDistinct(field, _, _)) => Some(field@),
        _ => None,
    }
}

/// The names of the fields whose postings are read whole.
pub open spec fn posting_names(
    need_all_term_fields: Seq<String>,
    rule: Option<IndexOptimizeMode>,
) -> Set<Seq<char>> {
    let condition = texts(need_all_term_fields).to_set();
    match distinct_field(rule) {
        Some(field) => condition.insert(field),
        None => condition,
    }
}

/// The fields of a schema that have one of the names.
pub open spec fn fields_named(fields: Map<Seq<char>, u32>, names: Set<Seq<char>>) -> Set<u32> {
    fields.restrict(names).values()
}

/// The columns that a rule's collector reads.
pub open spec fn rule_columns(
    rule: Option<IndexOptimizeMode>,
    has_skipped_conditions: bool,
) -> Set<Seq<char>> {
    match rule {
        Some(IndexOptimizeMode::SimpleHistogram(_, _, _, _)) => set![TIMESTAMP_COL_NAME@],
        Some(IndexOptimizeMode::SimpleMultiHistogram(_, _, _, _, name)) => set![
            TIMESTAMP_COL_NAME@,
            name@,
        ],
        Some(IndexOptimizeMode::SimpleTopN(names, _, _)) => texts(names@).to_set(),
        Some(IndexOptimizeMode::SimpleSelect(_, _)) => if has_skipped_conditions {
            Set::empty()
        } else {
            set![TIMESTAMP_COL_NAME@]
        },
        _ => Set::empty(),
    }
}

/// The columns that are read ahead: those of the rule's collector, and the time where the file
/// lies partly outside the searched span.
pub open spec fn warm_columns(
    rule: Option<IndexOptimizeMode>,
    file_in_range: bool,
    has_skipped_conditions: bool,
) -> Set<Seq<char>> {
    if file_in_range {
        rule_columns(rule, has_skipped_conditions)
    } else {
        rule_columns(rule, has_skipped_conditions).insert(TIMESTAMP_COL_NAME@)
    }
}

/// The names in a list, none of which occurs twice.
pub open spec fn lists_set(list: Seq<String>, names: Set<Seq<char>>) -> bool {
    texts(list).no_duplicates() && texts(list).to_set() == names
}

/// What is read ahead of a search.
pub struct WarmPlan {
    /// Single terms, field by field.
    pub terms: TermMap,
    /// Fields whose postings are read whole.
    pub full_posting_fields: HashSet<u32>,
    /// Columns, each once.
    pub fast_fields: Vec<String>,
}

impl WarmPlan {
    /// The plan for a search over one file. `need_all_term_fields` names the fields of which the
    /// search's condition looks at every term, and `query_terms` holds the terms that its query
    /// looks up, in the order in which it visits them. A name that the schema does not have is
    /// passed over.
    pub fn build(
        need_all_term_fields: &Vec<String>,
        query_terms: &Vec<QueryTerm>,
        idx_optimize_rule: &Option<IndexOptimizeMode>,
        schema: &Schema,
        file_in_range: bool,
        has_skipped_conditions: bool,
    ) -> (plan: Self)
        ensures
            plan.full_posting_fields@ == fields_named(
                schema_fields(*schema),
                posting_names(need_all_term_fields@, *idx_optimize_rule),
            ),
            planned(plan.terms) == terms_of(query_terms@),
            lists_set(
                plan.fast_fields@,
                warm_columns(*idx_optimize_rule, file_in_range, has_skipped_conditions),
            ),
    {
        let full_posting_fields = full_posting_fields(
            need_all_term_fields,
            idx_optimize_rule,
            schema,
        );
        let mut terms = new_terms();
        let mut i: usize = 0;
        assert(query_terms@.take(0) =~= Seq::empty());
        while i < query_terms.len()
            invariant
                i <= query_terms@.len(),
                planned(terms) == terms_of(query_terms@.take(i as int)),
            decreases query_terms@.len() - i,
        {
            let term = &query_terms[i];
            add_term(&mut terms, term.field, copy_bytes(&term.bytes), term.need_position);
            assert(query_terms@.take(i + 1).drop_last() =~= query_terms@.take(i as int));
            i = i + 1;
        }
        assert(query_terms@.take(i as int) =~= query_terms@);
        let fast_fields = fast_fields(idx_optimize_rule, file_in_range, has_skipped_conditions);
        WarmPlan { terms, full_posting_fields, fast_fields }
    }

    /// The plan's terms, each once: its field, its bytes, and whether positions are needed.
    pub fn term_list(&self) -> (listed: Vec<(u32, Vec<u8>, bool)>)
        ensures
            forall|i: int|
                0 <= i < listed@.len() ==> has_term(
                    planned(self.terms),
                    (#[trigger] listed@[i]).0,
                    listed@[i].1@,
                    listed@[i].2,
                ),
            forall|i: int, j: int|
                0 <= i < j < listed@.len() ==> (#[trigger] listed@[i]).0 != (
                #[trigger] listed@[j]).0 || listed@[i].1@ != listed@[j].1@,
            forall|field: u32, term: Seq<u8>, need_position: bool| #[trigger]
                has_term(planned(self.terms), field, term, need_position) ==> exists|i: int|
                    0 <= i < listed@.len() && (#[trigger] listed@[i]).0 == field && listed@[i].1@
                        == term && listed@[i].2 == need_position,
    {
        let listed = list_terms(&self.terms);
        listed
    }
}

impl Default for WarmPlan {
    /// The plan that reads nothing.
    fn default() -> (plan: Self)
        ensures
            plan.full_posting_fields@ == Set::<u32>::empty(),
            planned(plan.terms) == (Map::<u32, Map<Seq<u8>, bool>>::empty()),
            plan.fast_fields@.len() == 0,
    {
        WarmPlan {
            terms: new_terms(),
            full_posting_fields: HashSet::new(),
            fast_fields: Vec::new(),
        }
    }
}

/// The same bytes.
fn copy_bytes(bytes: &Vec<u8>) -> (copy: Vec<u8>)
    ensures
        copy@ == bytes@,
{
    let copy = bytes.clone();
    assert(copy@ =~= bytes@);
    copy
}

/// Adds the field of that name, where the schema has one.
fn add_named_field(fields: &mut HashSet<u32>, schema: &Schema, name: &str)
    ensures
        final(fields)@ == old(fields)@.union(
            fields_named(schema_fields(*schema), set![name@]),
        ),
{
    let ghost known = schema_fields(*schema);
    let ghost named = known.restrict(set![name@]);
    match field_named(schema, name) {
        Some(field) => {
            fields.insert(field);
            proof {
                assert(named.contains_key(name@));
                assert(named.values() =~= set![field]);
                assert(fields@ =~= old(fields)@.union(named.values()));
            }
        },
        None => {
            assert(named.values() =~= Set::empty());
            assert(fields@ =~= old(fields)@.union(named.values()));
        },
    }
}

/// The fields whose postings are read whole.
fn full_posting_fields(
    need_all_term_fields: &Vec<String>,
    idx_optimize_rule: &Option<IndexOptimizeMode>,
    schema: &Schema,
) -> (fields: HashSet<u32>)
    ensures
        fields@ == fields_named(
            schema_fields(*schema),
            posting_names(need_all_term_fields@, *idx_optimize_rule),
        ),
{
    let ghost known = schema_fields(*schema);
    let mut fields: HashSet<u32> = HashSet::new();
    let mut i: usize = 0;
    proof {
        assert(texts(need_all_term_fields@.take(0)).to_set() =~= Set::empty());
        assert(fields_named(known, Set::empty()) =~= Set::empty());
    }
    while i < need_all_term_fields.len()
        invariant
            i <= need_all_term_fields@.len(),
            known == schema_fields(*schema),
            fields@ == fields_named(known, texts(need_all_term_fields@.take(i as int)).to_set()),
        decreases need_all_term_fields@.len() - i,
    {
        let ghost seen = need_all_term_fields@.take(i as int);
        let ghost name = need_all_term_fields@[i as int];
        add_named_field(&mut fields, schema, need_all_term_fields[i].as_str());
        proof {
            assert(need_all_term_fields@.take(i + 1) =~= seen.push(name));
            lemma_texts_push(seen, name);
            lemma_fields_union(known, texts(seen).to_set(), name@);
        }
        i = i + 1;
    }
    assert(need_all_term_fields@.take(i as int) =~= need_all_term_fields@);
    if let Some(field) = simple_distinct_field(idx_optimize_rule) {
        proof {
            lemma_fields_union(known, texts(need_all_term_fields@).to_set(), field@);
        }
        add_named_field(&mut fields, schema, field.as_str());
    }
    fields
}

/// The field whose distinct values are asked for.
pub fn simple_distinct_field(idx_optimize_rule: &Option<IndexOptimizeMode>) -> (field: Option<
    String,
>)
    ensures
        match field {
            Some(name) => distinct_field(*idx_optimize_rule) == Some(name@),
            None => distinct_field(*idx_optimize_rule) is None,
        },
{
    match idx_optimize_rule {
        Some(IndexOptimizeMode::SimpleDistinct(field, _, _)) => Some(field.clone()),
        _ => None,
    }
}

/// The texts of a list with one more name.
proof fn lemma_texts_push(list: Seq<String>, name: String)
    ensures
        texts(list.push(name)) == texts(list).push(name@),
        texts(list.push(name)).to_set() == texts(list).to_set().insert(name@),
{
    let longer = texts(list.push(name));
    assert(longer =~= texts(list).push(name@));
    assert forall|text: Seq<char>| #[trigger]
        texts(list).to_set().insert(name@).contains(text) implies longer.to_set().contains(text) by {
        if text == name@ {
            assert(longer[list.len() as int] == text);
        } else {
            let i = choose|i: int| 0 <= i < list.len() && texts(list)[i] == text;
            assert(longer[i] == text);
        }
    }
    assert forall|text: Seq<char>| #[trigger]
        longer.to_set().contains(text) implies texts(list).to_set().insert(name@).contains(text) by {
        let i = choose|i: int| 0 <= i < longer.len() && longer[i] == text;
        if i < list.len() {
            assert(texts(list)[i] == text);
        }
    }
    assert(longer.to_set() =~= texts(list).to_set().insert(name@));
}

/// The fields of one more name.
proof fn lemma_fields_union(known: Map<Seq<char>, u32>, names: Set<Seq<char>>, name: Seq<char>)
    ensures
        fields_named(known, names.insert(name)) == fields_named(known, names).union(
            fields_named(known, set![name]),
        ),
{
    let all = known.restrict(names.insert(name));
    let some = known.restrict(names);
    let one = known.restrict(set![name]);
    assert forall|field: u32| #[trigger]
        all.values().contains(field) implies some.values().union(one.values()).contains(field) by {
        let key = choose|key: Seq<char>| #[trigger] all.dom().contains(key) && all[key] == field;
        if names.contains(key) {
            assert(some.dom().contains(key) && some[key] == field);
        } else {
            assert(one.dom().contains(key) && one[key] == field);
        }
    }
    assert forall|field: u32| #[trigger]
        some.values().union(one.values()).contains(field) implies all.values().contains(field) by {
        if some.values().contains(field) {
            let key = choose|key: Seq<char>| #[trigger]
                some.dom().contains(key) && some[key] == field;
            assert(all.dom().contains(key) && all[key] == field);
        } else {
            let key = choose|key: Seq<char>| #[trigger] one.dom().contains(key) && one[key] == field;
            assert(all.dom().contains(key) && all[key] == field);
        }
    }
    assert(all.values() =~= some.values().union(one.values()));
}

/// Adds a name to a list in which none occurs twice.
fn add_column(columns: &mut Vec<String>, name: &str, Ghost(names): Ghost<Set<Seq<char>>>)
    requires
        lists_set(old(columns)@, names),
    ensures
        lists_set(final(columns)@, names.insert(name@)),
{
    let ghost before = columns@;
    let wanted = name.to_owned();
    let mut i: usize = 0;
    while i < columns.len()
        invariant
            i <= columns@.len(),
            columns@ == before,
            wanted@ == name@,
            lists_set(before, names),
            forall|j: int| 0 <= j < i ==> texts(before)[j] != name@,
        decreases columns@.len() - i,
    {
        if columns[i] == wanted {
            proof {
                assert(texts(before)[i as int] == name@);
                assert(names.insert(name@) =~= names);
            }
            return;
        }
        i = i + 1;
    }
    columns.push(wanted);
    proof {
        lemma_texts_push(before, wanted);
    }
}

/// The columns that are read ahead of a search, each once.
pub fn fast_fields(
    idx_optimize_rule: &Option<IndexOptimizeMode>,
    file_in_range: bool,
    has_skipped_conditions: bool,
) -> (columns: Vec<String>)
    ensures
        lists_set(
            columns@,
            warm_columns(*idx_optimize_rule, file_in_range, has_skipped_conditions),
        ),
{
    let mut columns: Vec<String> = Vec::new();
    let ghost mut names: Set<Seq<char>> = Set::empty();
    assert(texts(columns@).to_set() =~= names);
    if let Some(rule) = idx_optimize_rule {
        match rule {
            IndexOptimizeMode::SimpleHistogram(_, _, _, _) => {
                add_column(&mut columns, TIMESTAMP_COL_NAME, Ghost(names));
                proof {
                    names = names.insert(TIMESTAMP_COL_NAME@);
                }
            },
            IndexOptimizeMode::SimpleMultiHistogram(_, _, _, _, name) => {
                add_column(&mut columns, TIMESTAMP_COL_NAME, Ghost(names));
                proof {
                    names = names.insert(TIMESTAMP_COL_NAME@);
                }
                add_column(&mut columns, name.as_str(), Ghost(names));
                proof {
                    names = names.insert(name@);
                }
            },
            IndexOptimizeMode::SimpleTopN(wanted, _, _) => {
                let mut i: usize = 0;
                assert(texts(wanted@.take(0)).to_set() =~= names);
                while i < wanted.len()
                    invariant
                        i <= wanted@.len(),
                        names == texts(wanted@.take(i as int)).to_set(),
                        lists_set(columns@, names),
                    decreases wanted@.len() - i,
                {
                    add_column(&mut columns, wanted[i].as_str(), Ghost(names));
                    proof {
                        let seen = wanted@.take(i as int);
                        assert(wanted@.take(i + 1) =~= seen.push(wanted@[i as int]));
                        lemma_texts_push(seen, wanted@[i as int]);
                        names = names.insert(wanted@[i as int]@);
                    }
                    i = i + 1;
                }
                assert(wanted@.take(i as int) =~= wanted@);
            },
            IndexOptimizeMode::SimpleSelect(_, _) => {
                if !has_skipped_conditions {
                    add_column(&mut columns, TIMESTAMP_COL_NAME, Ghost(names));
                    proof {
                        names = names.insert(TIMESTAMP_COL_NAME@);
                    }
                }
            },
            IndexOptimizeMode::SimpleCount => {},
            IndexOptimizeMode::SimpleDistinct(_, _, _) => {},
        }
    }
    assert(names =~= rule_columns(*idx_optimize_rule, has_skipped_conditions));
    if !file_in_range {
        add_column(&mut columns, TIMESTAMP_COL_NAME, Ghost(names));
    }
    columns
}

// What a plan holds, name by name.

/// Every field that the condition names and the schema has is read whole.
pub proof fn law_condition_fields_are_read_whole(
    fields: Map<Seq<char>, u32>,
    need_all_term_fields: Seq<String>,
    rule: Option<IndexOptimizeMode>,
    i: int,
)
    requires
        0 <= i < need_all_term_fields.len(),
        fields.contains_key(need_all_term_fields[i]@),
    ensures
        fields_named(fields, posting_names(need_all_term_fields, rule)).contains(
            fields[need_all_term_fields[i]@],
        ),
{
    let names = posting_names(need_all_term_fields, rule);
    let name = need_all_term_fields[i]@;
    assert(texts(need_all_term_fields)[i] == name);
    assert(names.contains(name));
    assert(fields.restrict(names).dom().contains(name));
    assert(fields.restrict(names)[name] == fields[name]);
}

/// The field whose distinct values are asked for is read whole, where the schema has it, whatever
/// their number and order.
pub proof fn law_distinct_field_is_read_whole(
    fields: Map<Seq<char>, u32>,
    need_all_term_fields: Seq<String>,
    name: String,
    limit: usize,
    ascend: bool,
)
    requires
        fields.contains_key(name@),
    ensures
        fields_named(
            fields,
            posting_names(
                need_all_term_fields,
                Some(IndexOptimizeMode::SimpleDistinct(name, limit, ascend)),
            ),
        ).contains(fields[name@]),
{
    let names = posting_names(
        need_all_term_fields,
        Some(IndexOptimizeMode::SimpleDistinct(name, limit, ascend)),
    );
    assert(names.contains(name@));
    assert(fields.restrict(names).dom().contains(name@));
    assert(fields.restrict(names)[name@] == fields[name@]);
}

/// No other field is read whole: each has a name that the condition gives or whose distinct values
/// are asked for.
pub proof fn law_only_asked_fields_are_read_whole(
    fields: Map<Seq<char>, u32>,
    need_all_term_fields: Seq<String>,
    rule: Option<IndexOptimizeMode>,
    field: u32,
)
    requires
        fields_named(fields, posting_names(need_all_term_fields, rule)).contains(field),
    ensures
        (exists|i: int|
            0 <= i < need_all_term_fields.len() && fields.contains_key(
                (#[trigger] need_all_term_fields[i])@,
            ) && fields[need_all_term_fields[i]@] == field) || (rule matches Some(
            IndexOptimizeMode::SimpleDistinct(name, _, _),
        ) && fields.contains_key(name@) && fields[name@] == field),
{
    let names = posting_names(need_all_term_fields, rule);
    let asked = fields.restrict(names);
    let name = choose|name: Seq<char>| #[trigger] asked.dom().contains(name) && asked[name] == field;
    if texts(need_all_term_fields).to_set().contains(name) {
        let i = choose|i: int|
            0 <= i < need_all_term_fields.len() && texts(need_all_term_fields)[i] == name;
        assert(need_all_term_fields[i]@ == name);
    }
}

/// Only the distinct values of a field name one, and it is that field, whatever their number and
/// order.
pub proof fn law_distinct_field(rule: Option<IndexOptimizeMode>)
    ensures
        rule matches Some(IndexOptimizeMode::SimpleDistinct(name, _, _)) ==> distinct_field(rule)
            == Some(name@),
        !(rule matches Some(IndexOptimizeMode::SimpleDistinct(_, _, _))) ==> distinct_field(rule)
            is None,
{
}

/// The time is read ahead for a file that lies partly outside the searched span, for a histogram of
/// either kind, and for a selection of records that is not filtered afterwards; and, as any column,
/// where it is named.
pub proof fn law_columns_read_ahead(
    rule: Option<IndexOptimizeMode>,
    file_in_range: bool,
    has_skipped_conditions: bool,
    column: Seq<char>,
)
    ensures
        warm_columns(rule, file_in_range, has_skipped_conditions).contains(column) <==> ({
            ||| column == "_timestamp"@ && !file_in_range
            ||| column == "_timestamp"@ && rule matches Some(
                IndexOptimizeMode::SimpleHistogram(_, _, _, _),
            )
            ||| column == "_timestamp"@ && rule matches Some(
                IndexOptimizeMode::SimpleMultiHistogram(_, _, _, _, _),
            )
            ||| column == "_timestamp"@ && !has_skipped_conditions && rule matches Some(
                IndexOptimizeMode::SimpleSelect(_, _),
            )
            ||| rule matches Some(IndexOptimizeMode::SimpleMultiHistogram(_, _, _, _, name))
                && column == name@
            ||| rule matches Some(IndexOptimizeMode::SimpleTopN(names, _, _)) && exists|i: int|
                0 <= i < names@.len() && (#[trigger] names@[i])@ == column
        }),
{
    if let Some(IndexOptimizeMode::SimpleTopN(names, _, _)) = rule {
        if texts(names@).to_set().contains(column) {
            let i = choose|i: int| 0 <= i < names@.len() && texts(names@)[i] == column;
            assert(names@[i]@ == column);
        }
        if exists|i: int| 0 <= i < names@.len() && (#[trigger] names@[i])@ == column {
            let i = choose|i: int| 0 <= i < names@.len() && (#[trigger] names@[i])@ == column;
            assert(texts(names@)[i] == column);
        }
    }
}

/// How many records are selected, and in which order, does not change the columns.
pub proof fn law_selection_does_not_change_columns(
    limit: usize,
    ascend: bool,
    other_limit: usize,
    other_ascend: bool,
    file_in_range: bool,
    has_skipped_conditions: bool,
)
    ensures
        warm_columns(
            Some(IndexOptimizeMode::SimpleSelect(limit, ascend)),
            file_in_range,
            has_skipped_conditions,
        ) == warm_columns(
            Some(IndexOptimizeMode::SimpleSelect(other_limit, other_ascend)),
            file_in_range,
            has_skipped_conditions,
        ),
        !has_skipped_conditions ==> warm_columns(
            Some(IndexOptimizeMode::SimpleSelect(limit, ascend)),
            file_in_range,
            has_skipped_conditions,
        ) == set!["_timestamp"@],
{
    assert(set!["_timestamp"@].insert("_timestamp"@) =~= set!["_timestamp"@]);
}

/// How many values are asked for, and in which order, does not change the columns.
pub proof fn law_top_values_do_not_change_columns(
    names: Vec<String>,
    limit: usize,
    ascend: bool,
    other_limit: usize,
    other_ascend: bool,
    file_in_range: bool,
    has_skipped_conditions: bool,
    other_skipped: bool,
)
    ensures
        warm_columns(
            Some(IndexOptimizeMode::SimpleTopN(names, limit, ascend)),
            file_in_range,
            has_skipped_conditions,
        ) == warm_columns(
            Some(IndexOptimizeMode::SimpleTopN(names, other_limit, other_ascend)),
            file_in_range,
            other_skipped,
        ),
{
}

/// A list of a set holds each member at one place, and nothing else.
pub proof fn law_list_of_a_set(list: Seq<String>, names: Set<Seq<char>>)
    requires
        lists_set(list, names),
    ensures
        forall|i: int| 0 <= i < list.len() ==> names.contains((#[trigger] list[i])@),
        forall|name: Seq<char>| #[trigger]
            names.contains(name) ==> exists|i: int|
                0 <= i < list.len() && (#[trigger] list[i])@ == name,
        forall|i: int, j: int|
            #![trigger list[i], list[j]]
            0 <= i < list.len() && 0 <= j < list.len() && list[i]@ == list[j]@ ==> i == j,
{
    assert forall|i: int| 0 <= i < list.len() implies names.contains((#[trigger] list[i])@) by {
        assert(texts(list)[i] == list[i]@);
    }
    assert forall|name: Seq<char>| #[trigger] names.contains(name) implies exists|i: int|
        0 <= i < list.len() && (#[trigger] list[i])@ == name by {
        let i = choose|i: int| 0 <= i < list.len() && texts(list)[i] == name;
        assert(list[i]@ == name);
    }
    assert forall|i: int, j: int|
        #![trigger list[i], list[j]]
        0 <= i < list.len() && 0 <= j < list.len() && list[i]@ == list[j]@ implies i == j by {
        assert(texts(list)[i] == texts(list)[j]);
    }
}

/// A term is planned where it was visited last with no equal one behind it, equal in field and bytes,
/// and with the positions that this visit asks for.
pub proof fn law_visited_term_is_planned(terms: Seq<QueryTerm>, i: int)
    requires
        0 <= i < terms.len(),
        forall|j: int|
            i < j < terms.len() ==> (#[trigger] terms[j]).field != terms[i].field
                || terms[j].bytes@ != terms[i].bytes@,
    ensures
        terms_of(terms).contains_key(terms[i].field),
        terms_of(terms)[terms[i].field].contains_key(terms[i].bytes@),
        terms_of(terms)[terms[i].field][terms[i].bytes@] == terms[i].need_position,
{
    assert forall|j: int| i < j < terms.len() implies !same_term(
        terms[i],
        #[trigger] terms[j],
    ) by {}
    law_last_visit_decides(terms, i);
}

/// A term that no visit looks up is not planned, under no field.
pub proof fn law_unvisited_term_is_not_planned(terms: Seq<QueryTerm>, field: u32, term: Seq<u8>)
    requires
        forall|i: int|
            0 <= i < terms.len() ==> (#[trigger] terms[i]).field != field || terms[i].bytes@
                != term,
        terms_of(terms).contains_key(field),
    ensures
        !terms_of(terms)[field].contains_key(term),
{
    if terms_of(terms)[field].contains_key(term) {
        let i = law_only_visited_terms(terms, field, term, terms_of(terms)[field][term]);
        assert(terms[i].field == field);
    }
}

/// A field has planned terms exactly where a term of it is visited.
pub proof fn law_fields_of_planned_terms(terms: Seq<QueryTerm>, field: u32)
    ensures
        terms_of(terms).contains_key(field) <==> exists|i: int|
            0 <= i < terms.len() && (#[trigger] terms[i]).field == field,
    decreases terms.len(),
{
    if terms.len() > 0 {
        let shorter = terms.drop_last();
        law_fields_of_planned_terms(shorter, field);
        if exists|i: int| 0 <= i < shorter.len() && (#[trigger] shorter[i]).field == field {
            let i = choose|i: int| 0 <= i < shorter.len() && (#[trigger] shorter[i]).field == field;
            assert(terms[i].field == field);
        }
        if exists|i: int| 0 <= i < terms.len() && (#[trigger] terms[i]).field == field {
            let i = choose|i: int| 0 <= i < terms.len() && (#[trigger] terms[i]).field == field;
            if i < shorter.len() {
                assert(shorter[i].field == field);
            } else {
                assert(terms.last().field == field);
            }
        } else if terms.last().field == field {
            assert(terms[terms.len() - 1].field == field);
        }
    }
}

} // verus!
