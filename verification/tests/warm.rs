use std::collections::HashSet;

use search_cache::warm::{
    fast_fields, simple_distinct_field, IndexOptimizeMode, QueryTerm, WarmPlan, TIMESTAMP_COL_NAME,
};
use tantivy::query::{AllQuery, BooleanQuery, Occur, PhraseQuery, Query, RegexQuery, TermQuery};
use tantivy::schema::{Field, IndexRecordOption, Schema, FAST, TEXT};
use tantivy::Term;

/// The field that every searchable text goes to.
const INDEX_FIELD_NAME_FOR_ALL: &str = "_all";

fn schema() -> Schema {
    let mut builder = Schema::builder();
    builder.add_text_field("tag", TEXT);
    builder.add_text_field(INDEX_FIELD_NAME_FOR_ALL, TEXT);
    builder.add_i64_field(TIMESTAMP_COL_NAME, FAST);
    builder.build()
}

fn tag() -> Field {
    schema().get_field("tag").unwrap()
}

/// The terms that a query visits.
fn visited(query: &dyn Query) -> Vec<QueryTerm> {
    let mut terms = Vec::new();
    query.query_terms(&mut |term, need_position| {
        terms.push(QueryTerm::new(term.serialized_term().to_vec(), need_position));
    });
    terms
}

/// The plan for a condition that looks at every term of some fields and makes a query.
fn build_plan(
    need_all_term_fields: &[&str],
    query: &dyn Query,
    optimize_rule: Option<IndexOptimizeMode>,
    file_in_range: bool,
    has_skipped_conditions: bool,
) -> (WarmPlan, Schema) {
    let schema = schema();
    let names: Vec<String> = need_all_term_fields.iter().map(|name| name.to_string()).collect();
    let plan = WarmPlan::build(
        &names,
        &visited(query),
        &optimize_rule,
        &schema,
        file_in_range,
        has_skipped_conditions,
    );
    (plan, schema)
}

/// The names as a set, none of which may occur twice.
fn as_set(names: &[String]) -> HashSet<String> {
    let set: HashSet<String> = names.iter().cloned().collect();
    assert_eq!(set.len(), names.len());
    set
}

/// The condition that the text occurs in the field.
fn str_match() -> Box<dyn Query> {
    Box::new(RegexQuery::from_pattern("(?i).*needle.*", tag()).unwrap())
}

/// The condition that the field has another value.
fn not_equal(value: &str) -> Box<dyn Query> {
    let term = TermQuery::new(Term::from_field_text(tag(), value), IndexRecordOption::Basic);
    Box::new(BooleanQuery::new(vec![
        (Occur::Must, Box::new(AllQuery)),
        (Occur::MustNot, Box::new(term)),
    ]))
}

#[test]
fn simple_distinct_field_preserves_existing_mode_selection() {
    assert_eq!(
        simple_distinct_field(&None).into_iter().collect::<Vec<_>>(),
        Vec::<String>::new()
    );
    assert_eq!(
        simple_distinct_field(&Some(IndexOptimizeMode::SimpleCount))
            .into_iter()
            .collect::<Vec<_>>(),
        Vec::<String>::new()
    );
    assert_eq!(
        simple_distinct_field(&Some(IndexOptimizeMode::SimpleDistinct("tag".into(), 10, true)))
            .into_iter()
            .collect::<Vec<_>>(),
        vec!["tag".to_string()]
    );
}

#[test]
fn str_match_preserves_full_posting_warmup() {
    let (plan, schema) = build_plan(&["tag"], str_match().as_ref(), None, true, false);
    assert_eq!(
        plan.full_posting_fields,
        HashSet::from([schema.get_field("tag").unwrap().field_id()])
    );
    assert!(plan.term_list().is_empty());
}

#[test]
fn not_equal_preserves_full_field_and_exact_term_warmup() {
    let (plan, schema) = build_plan(&["tag"], not_equal("value").as_ref(), None, true, false);
    let tag = schema.get_field("tag").unwrap();
    assert_eq!(plan.full_posting_fields, HashSet::from([tag.field_id()]));
    assert_eq!(
        plan.term_list(),
        vec![(
            tag.field_id(),
            Term::from_field_text(tag, "value").serialized_term().to_vec(),
            false
        )]
    );
}

#[test]
fn simple_distinct_preserves_target_field_warmup() {
    let (plan, schema) = build_plan(
        &[],
        &AllQuery,
        Some(IndexOptimizeMode::SimpleDistinct("tag".into(), 10, true)),
        true,
        false,
    );
    assert_eq!(
        plan.full_posting_fields,
        HashSet::from([schema.get_field("tag").unwrap().field_id()])
    );
}

#[test]
fn collector_fast_fields_are_preserved() {
    let (histogram, _) = build_plan(
        &[],
        &AllQuery,
        Some(IndexOptimizeMode::SimpleHistogram(0, 100, 10, 0)),
        true,
        false,
    );
    assert_eq!(
        as_set(&histogram.fast_fields),
        HashSet::from([TIMESTAMP_COL_NAME.to_string()])
    );

    let (top_n, _) = build_plan(
        &[],
        &AllQuery,
        Some(IndexOptimizeMode::SimpleTopN(vec!["tag".into()], 10, true)),
        true,
        false,
    );
    assert_eq!(as_set(&top_n.fast_fields), HashSet::from(["tag".to_string()]));
}

#[test]
fn partial_file_preserves_timestamp_warmup() {
    let (plan, _) = build_plan(&[], &AllQuery, None, false, false);
    assert_eq!(
        as_set(&plan.fast_fields),
        HashSet::from([TIMESTAMP_COL_NAME.to_string()])
    );
}

#[test]
fn skipped_simple_select_preserves_existing_fast_field_behavior() {
    let (skipped, _) = build_plan(
        &[],
        &AllQuery,
        Some(IndexOptimizeMode::SimpleSelect(10, true)),
        true,
        true,
    );
    assert!(skipped.fast_fields.is_empty());

    let (complete, _) = build_plan(
        &[],
        &AllQuery,
        Some(IndexOptimizeMode::SimpleSelect(10, true)),
        true,
        false,
    );
    assert_eq!(
        as_set(&complete.fast_fields),
        HashSet::from([TIMESTAMP_COL_NAME.to_string()])
    );
}

#[test]
fn multi_histogram_reads_its_column_too() {
    let rule = |name: &str| {
        Some(IndexOptimizeMode::SimpleMultiHistogram(0, 100, 10, 0, name.to_string()))
    };
    assert_eq!(
        as_set(&fast_fields(&rule("tag"), true, false)),
        HashSet::from([TIMESTAMP_COL_NAME.to_string(), "tag".to_string()])
    );
    // the time is read once, also where it is the column and the file is partly out of range
    assert_eq!(
        as_set(&fast_fields(&rule(TIMESTAMP_COL_NAME), false, false)),
        HashSet::from([TIMESTAMP_COL_NAME.to_string()])
    );
}

#[test]
fn top_n_columns_are_read_once() {
    let rule = Some(IndexOptimizeMode::SimpleTopN(
        vec!["a".into(), "b".into(), "a".into()],
        10,
        true,
    ));
    assert_eq!(
        as_set(&fast_fields(&rule, true, true)),
        HashSet::from(["a".to_string(), "b".to_string()])
    );
    assert_eq!(
        as_set(&fast_fields(&rule, false, true)),
        HashSet::from(["a".to_string(), "b".to_string(), TIMESTAMP_COL_NAME.to_string()])
    );
}

#[test]
fn other_rules_read_no_column() {
    assert!(fast_fields(&None, true, false).is_empty());
    assert!(fast_fields(&Some(IndexOptimizeMode::SimpleCount), true, false).is_empty());
    let distinct = Some(IndexOptimizeMode::SimpleDistinct("tag".into(), 1, false));
    assert!(fast_fields(&distinct, true, false).is_empty());
}

#[test]
fn names_that_the_schema_lacks_are_passed_over() {
    let (plan, schema) = build_plan(
        &["missing", "_all"],
        &AllQuery,
        Some(IndexOptimizeMode::SimpleDistinct("gone".into(), 10, true)),
        true,
        false,
    );
    assert_eq!(
        plan.full_posting_fields,
        HashSet::from([schema.get_field("_all").unwrap().field_id()])
    );
}

#[test]
fn condition_and_distinct_field_are_both_read() {
    let (plan, schema) = build_plan(
        &["_all", "_all"],
        &AllQuery,
        Some(IndexOptimizeMode::SimpleDistinct("tag".into(), 10, true)),
        true,
        false,
    );
    assert_eq!(
        plan.full_posting_fields,
        HashSet::from([
            schema.get_field("_all").unwrap().field_id(),
            schema.get_field("tag").unwrap().field_id(),
        ])
    );
}

#[test]
fn term_starts_with_its_field() {
    let term = QueryTerm::new(vec![1, 2, 3, 4, b's', b'x'], true);
    assert_eq!(term.field, 0x0102_0304);
    assert_eq!(term.bytes, vec![1, 2, 3, 4, b's', b'x']);
    assert!(term.need_position);
}

#[test]
fn terms_are_grouped_and_the_last_visit_decides() {
    let all = schema().get_field(INDEX_FIELD_NAME_FOR_ALL).unwrap();
    let once = |field: Field, text: &str, need_position: bool| {
        let term = Term::from_field_text(field, text);
        QueryTerm::new(term.serialized_term().to_vec(), need_position)
    };
    let planned = |field: Field, text: &str, need_position: bool| {
        let bytes = Term::from_field_text(field, text).serialized_term().to_vec();
        (field.field_id(), bytes, need_position)
    };
    let terms = vec![
        once(tag(), "x", true),
        once(all, "x", true),
        once(tag(), "y", false),
        once(tag(), "x", false),
        once(tag(), "y", true),
    ];
    let plan = WarmPlan::build(&Vec::new(), &terms, &None, &schema(), true, false);
    let mut listed = plan.term_list();
    listed.sort();
    let mut expected = vec![
        planned(tag(), "x", false),
        planned(tag(), "y", true),
        planned(all, "x", true),
    ];
    expected.sort();
    assert_eq!(listed, expected);
}

#[test]
fn planned_terms_stand_under_their_own_field() {
    let all = schema().get_field(INDEX_FIELD_NAME_FOR_ALL).unwrap();
    let terms: Vec<QueryTerm> = [(tag(), "x"), (all, "x"), (all, "y")]
        .iter()
        .map(|(field, text)| {
            let term = Term::from_field_text(*field, text);
            QueryTerm::new(term.serialized_term().to_vec(), false)
        })
        .collect();
    let plan = WarmPlan::build(&Vec::new(), &terms, &None, &schema(), true, false);
    let listed = plan.term_list();
    assert_eq!(listed.len(), 3);
    for (field, bytes, _) in listed {
        assert_eq!(bytes[..4], field.to_be_bytes());
    }
}

#[test]
fn phrase_terms_need_positions() {
    let phrase = PhraseQuery::new(vec![
        Term::from_field_text(tag(), "a"),
        Term::from_field_text(tag(), "b"),
    ]);
    let (plan, _) = build_plan(&[], &phrase, None, true, false);
    let listed = plan.term_list();
    assert_eq!(listed.len(), 2);
    assert!(listed.iter().all(|term| term.0 == tag().field_id() && term.2));
}

#[test]
fn default_plan_reads_nothing() {
    let plan = WarmPlan::default();
    assert!(plan.term_list().is_empty());
    assert!(plan.full_posting_fields.is_empty());
    assert!(plan.fast_fields.is_empty());
}
