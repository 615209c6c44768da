use ncl_runtime::error::RuntimeError;
use ncl_runtime::runtime::Runtime;
use ncl_runtime::sequence_edits::{
    duplicate_marks, select_matches, test_marks, SequenceItems,
};
use ncl_runtime::sequence_options::SequenceKind;
use ncl_runtime::sequence_search::{count_matches, find_mismatch, first_match, search_subsequence};
use ncl_runtime::syntax::Span;
use ncl_runtime::value::Value;

const SPAN: Span = Span { start: 0, end: 1 };

fn ints(values: &[i64]) -> Vec<Value> {
    values.iter().map(|v| Value::Integer(*v)).collect()
}

fn is_even(value: &Value) -> Result<bool, RuntimeError> {
    match value {
        Value::Integer(n) => Ok(n % 2 == 0),
        other => Err(RuntimeError::Type {
            expected: "INTEGER".to_string(),
            actual: other.kind_name().to_string(),
            span: None,
        }),
    }
}

fn same(a: &Value, b: &Value) -> Result<bool, RuntimeError> {
    Ok(a.eq_value(b))
}

#[test]
fn sequence_items_round_trip_each_kind() {
    let list = Value::list(ints(&[1, 2]));
    let items = SequenceItems::from_value(&list, SPAN).unwrap();
    assert_eq!(items.kind, SequenceKind::List);
    assert_eq!(items.into_value(&list, SPAN).unwrap(), list);

    let text = Value::string("ab");
    let items = SequenceItems::from_value(&text, SPAN).unwrap();
    assert_eq!(items.kind, SequenceKind::String);
    assert_eq!(items.values, vec![Value::Character('a'), Value::Character('b')]);
    assert_eq!(items.into_value(&text, SPAN).unwrap(), text);

    let empty = SequenceItems::from_value(&Value::Nil, SPAN).unwrap();
    assert_eq!(empty.into_value(&Value::Nil, SPAN).unwrap(), Value::Nil);

    assert!(matches!(
        SequenceItems::from_value(&Value::Integer(1), SPAN),
        Err(RuntimeError::Type { expected, .. }) if expected == "SEQUENCE"
    ));
}

#[test]
fn count_limited_selection_takes_the_first_or_last_matches() {
    let matched = vec![true, false, true, true, false, true];
    assert_eq!(
        select_matches(&matched, 0, 6, Some(2), false),
        vec![true, false, true, false, false, false]
    );
    assert_eq!(
        select_matches(&matched, 0, 6, Some(2), true),
        vec![false, false, false, true, false, true]
    );
    assert_eq!(
        select_matches(&matched, 1, 4, None, false),
        vec![false, false, true, true, false, false]
    );
    assert_eq!(select_matches(&matched, 0, 6, Some(0), false), vec![false; 6]);
}

#[test]
fn remove_and_substitute_act_on_selected_matches() {
    let sequence = Value::list(ints(&[1, 2, 3, 4, 6]));
    let items = SequenceItems::from_value(&sequence, SPAN).unwrap();
    let matched = test_marks(&items.values, 0, 5, false, is_even).unwrap();
    assert_eq!(matched, vec![false, true, false, true, true]);

    let removed = Runtime::sequence_remove_result(items, 0, 5, Some(2), false, &matched, &sequence, SPAN).unwrap();
    assert_eq!(removed, Value::list(ints(&[1, 3, 6])));

    let items = SequenceItems::from_value(&sequence, SPAN).unwrap();
    let replaced = Runtime::sequence_substitute_result(
        items,
        &Value::Integer(0),
        0,
        5,
        None,
        true,
        &matched,
        &sequence,
        SPAN,
    )
    .unwrap();
    assert_eq!(replaced, Value::list(ints(&[1, 0, 3, 0, 0])));

    let negated = test_marks(&ints(&[1, 2]), 0, 2, true, is_even).unwrap();
    assert_eq!(negated, vec![true, false]);
    assert!(test_marks(&vec![Value::Nil], 0, 1, false, is_even).is_err());
}

#[test]
fn substitution_into_a_string_needs_a_character() {
    assert!(Runtime::substitution_item_check(SequenceKind::String, &Value::Integer(1), SPAN).is_err());
    assert!(Runtime::substitution_item_check(SequenceKind::String, &Value::Character('x'), SPAN).is_ok());
    assert!(Runtime::substitution_item_check(SequenceKind::List, &Value::Integer(1), SPAN).is_ok());
}

#[test]
fn removal_operations_are_classified() {
    let remove_if_not = Runtime::sequence_removal_operation("DELETE-IF-NOT", SPAN).unwrap();
    assert!(remove_if_not.is_predicate && remove_if_not.negated && !remove_if_not.removes_duplicates);
    let duplicates = Runtime::sequence_removal_operation("REMOVE-DUPLICATES", SPAN).unwrap();
    assert!(duplicates.removes_duplicates && !duplicates.is_predicate);
    assert!(matches!(
        Runtime::sequence_removal_operation("FROB", SPAN),
        Err(RuntimeError::InvalidForm { message, .. }) if message == "unknown sequence removal operation"
    ));
    let substitute_if = Runtime::sequence_substitution_operation("NSUBSTITUTE-IF", SPAN).unwrap();
    assert!(substitute_if.is_predicate && !substitute_if.negated);
    assert!(Runtime::sequence_substitution_operation("REMOVE", SPAN).is_err());
}

#[test]
fn duplicates_drop_the_earlier_occurrence_unless_from_end() {
    let values = ints(&[1, 2, 1, 3, 2]);
    let default = duplicate_marks(&values, 0, 5, false, false, same).unwrap();
    assert_eq!(default, vec![true, true, false, false, false]);
    let from_end = duplicate_marks(&values, 0, 5, true, false, same).unwrap();
    assert_eq!(from_end, vec![false, false, true, false, true]);

    let sequence = Value::vector(values.clone());
    let items = SequenceItems::from_value(&sequence, SPAN).unwrap();
    let result = Runtime::sequence_without_marked(items, &from_end, &sequence, SPAN).unwrap();
    assert_eq!(result, Value::vector(ints(&[1, 2, 3])));

    let ansi = ints(&[1, 2, 3, 2, 4, 4, 5]);
    let marks = duplicate_marks(&ansi, 0, 7, false, false, same).unwrap();
    let sequence = Value::list(ansi.clone());
    let items = SequenceItems::from_value(&sequence, SPAN).unwrap();
    let result = Runtime::sequence_without_marked(items, &marks, &sequence, SPAN).unwrap();
    assert_eq!(result, Value::list(ints(&[1, 3, 2, 4, 5])));
}

#[test]
fn find_position_and_count_scan_in_either_direction() {
    let values = ints(&[1, 2, 3, 4]);
    assert_eq!(first_match(&values, 0, 4, false, false, is_even).unwrap(), Some(1));
    assert_eq!(first_match(&values, 0, 4, true, false, is_even).unwrap(), Some(3));
    assert_eq!(first_match(&values, 2, 3, false, false, is_even).unwrap(), None);
    assert_eq!(count_matches(&values, 0, 4, false, false, is_even).unwrap(), 2);
    assert_eq!(count_matches(&values, 0, 4, true, true, is_even).unwrap(), 2);

    assert_eq!(
        Runtime::sequence_search_result("POSITION", &values, 0, 4, false, false, is_even, SPAN).unwrap(),
        Value::Integer(1)
    );
    assert_eq!(
        Runtime::sequence_search_result("FIND", &values, 0, 4, true, false, is_even, SPAN).unwrap(),
        Value::Integer(4)
    );
    assert_eq!(
        Runtime::sequence_search_result("COUNT", &values, 1, 4, false, false, is_even, SPAN).unwrap(),
        Value::Integer(2)
    );
    assert_eq!(
        Runtime::sequence_search_result("FIND", &ints(&[1, 3]), 0, 2, false, false, is_even, SPAN).unwrap(),
        Value::Nil
    );
    assert!(Runtime::sequence_search_result("FROB", &values, 0, 4, false, false, is_even, SPAN).is_err());
}

#[test]
fn search_and_mismatch_compare_two_ranges() {
    let needle = ints(&[2, 3]);
    let haystack = ints(&[1, 2, 3, 2, 3]);
    assert_eq!(search_subsequence(&needle, 0, 2, &haystack, 0, 5, false, false, same).unwrap(), Some(1));
    assert_eq!(search_subsequence(&needle, 0, 2, &haystack, 0, 5, true, false, same).unwrap(), Some(3));
    assert_eq!(search_subsequence(&haystack, 0, 5, &needle, 0, 2, false, false, same).unwrap(), None);
    assert_eq!(search_subsequence(&needle, 0, 0, &haystack, 0, 5, false, false, same).unwrap(), Some(0));

    let a = ints(&[1, 2, 3]);
    let b = ints(&[1, 2, 4]);
    assert_eq!(find_mismatch(&a, 0, 3, &b, 0, 3, false, false, same).unwrap(), Some(2));
    assert_eq!(find_mismatch(&a, 0, 3, &a, 0, 3, false, false, same).unwrap(), None);
    assert_eq!(find_mismatch(&a, 0, 3, &b, 0, 2, false, false, same).unwrap(), Some(2));
    assert_eq!(find_mismatch(&a, 0, 3, &b, 0, 3, true, false, same).unwrap(), Some(3));

    assert_eq!(
        Runtime::pair_search_result("SEARCH", &needle, 0, 2, &haystack, 0, 5, false, false, same, SPAN).unwrap(),
        Value::Integer(1)
    );
    assert_eq!(
        Runtime::pair_search_result("MISMATCH", &a, 0, 3, &a, 0, 3, false, false, same, SPAN).unwrap(),
        Value::Nil
    );
    assert!(Runtime::pair_search_result("FROB", &a, 0, 3, &a, 0, 3, false, false, same, SPAN).is_err());
}
