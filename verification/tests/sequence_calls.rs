use ncl_runtime::error::RuntimeError;
use ncl_runtime::runtime::Runtime;
use ncl_runtime::sequence_calls::test_designator;
use ncl_runtime::syntax::Span;
use ncl_runtime::value::Value;

const SPAN: Span = Span { start: 0, end: 1 };

fn ints(values: &[i64]) -> Vec<Value> {
    values.iter().map(|v| Value::Integer(*v)).collect()
}

fn int_of(v: &Value) -> i64 {
    match v {
        Value::Integer(n) => *n,
        other => panic!("not an integer: {:?}", other),
    }
}

/// The functions the tests hand over by name.
fn call(name: &&'static str, args: &Vec<Value>) -> Result<Value, RuntimeError> {
    match *name {
        "EQL" => Ok(Value::boolean(args[0].eq_value(&args[1]))),
        "<" => Ok(Value::boolean(int_of(&args[0]) < int_of(&args[1]))),
        "GREATER" => Ok(Value::boolean(int_of(&args[0]) > int_of(&args[1]))),
        "NEG" => Ok(Value::Integer(-int_of(&args[0]))),
        "ABS" => Ok(Value::Integer(int_of(&args[0]).abs())),
        "EVENP" => Ok(Value::boolean(int_of(&args[0]) % 2 == 0)),
        _ => Err(RuntimeError::InvalidForm { message: format!("no function {}", name), span: None }),
    }
}

#[test]
fn remove_calls_the_test_on_item_then_key() {
    // (remove 3 '(1 5 2 4) :test #'>) drops the elements x with 3 > x.
    let s = Value::list(ints(&[1, 5, 2, 4]));
    let r = Runtime::apply_sequence_remove(false, &Value::Integer(3), &s, 0, None, None, false, false, &"GREATER", &None, call, SPAN)
        .unwrap();
    assert_eq!(r, Value::list(ints(&[5, 4])));
    // :test-not keeps them instead.
    let r = Runtime::apply_sequence_remove(false, &Value::Integer(3), &s, 0, None, None, false, true, &"GREATER", &None, call, SPAN)
        .unwrap();
    assert_eq!(r, Value::list(ints(&[1, 2])));
}

#[test]
fn remove_with_key_count_and_direction() {
    let s = Value::list(ints(&[1, 2, 3, 2]));
    let r = Runtime::apply_sequence_remove(false, &Value::Integer(-2), &s, 0, None, Some(1), false, false, &"EQL", &Some("NEG"), call, SPAN)
        .unwrap();
    assert_eq!(r, Value::list(ints(&[1, 3, 2])));
    let r = Runtime::apply_sequence_remove(false, &Value::Integer(-2), &s, 0, None, Some(1), true, false, &"EQL", &Some("NEG"), call, SPAN)
        .unwrap();
    assert_eq!(r, Value::list(ints(&[1, 2, 3])));
    // remove-if evenp on a vector, within [1, 3).
    let v = Value::vector(ints(&[2, 4, 5, 6]));
    let r = Runtime::apply_sequence_remove(true, &Value::Nil, &v, 1, Some(3), None, false, false, &"EVENP", &None, call, SPAN)
        .unwrap();
    assert_eq!(r, Value::vector(ints(&[2, 5, 6])));
}

#[test]
fn remove_reports_a_failing_call_and_bad_bounds() {
    let s = Value::list(ints(&[1, 2]));
    let r = Runtime::apply_sequence_remove(false, &Value::Integer(1), &s, 0, None, None, false, false, &"MISSING", &None, call, SPAN);
    assert!(matches!(r, Err(RuntimeError::InvalidForm { message, .. }) if message == "no function MISSING"));
    let r = Runtime::apply_sequence_remove(false, &Value::Integer(1), &s, 2, Some(1), None, false, false, &"EQL", &None, call, SPAN);
    assert!(matches!(r, Err(RuntimeError::InvalidForm { .. })));
    let r = Runtime::apply_sequence_remove(false, &Value::Integer(1), &Value::Integer(7), 0, None, None, false, false, &"EQL", &None, call, SPAN);
    assert!(matches!(r, Err(RuntimeError::Type { expected, .. }) if expected == "SEQUENCE"));
}

#[test]
fn substitute_replaces_where_the_test_accepts_old_then_key() {
    let v = Value::vector(ints(&[1, 5, 2]));
    let r = Runtime::apply_sequence_substitute(false, &Value::Integer(0), &Value::Integer(3), &v, 0, None, None, false, false, &"GREATER", &None, call, SPAN)
        .unwrap();
    assert_eq!(r, Value::vector(ints(&[0, 5, 0])));
    let r = Runtime::apply_sequence_substitute(false, &Value::Integer(0), &Value::Integer(3), &v, 0, None, Some(1), true, false, &"GREATER", &None, call, SPAN)
        .unwrap();
    assert_eq!(r, Value::vector(ints(&[1, 5, 0])));
    let text = Value::string("abc");
    let r = Runtime::apply_sequence_substitute(false, &Value::Integer(0), &Value::Character('a'), &text, 0, None, None, false, false, &"EQL", &None, call, SPAN);
    assert!(matches!(r, Err(RuntimeError::Type { expected, .. }) if expected == "CHARACTER"));
    let r = Runtime::apply_sequence_substitute(false, &Value::Character('z'), &Value::Character('b'), &text, 0, None, None, false, false, &"EQL", &None, call, SPAN)
        .unwrap();
    assert_eq!(r, Value::string("azc"));
}

#[test]
fn searches_call_the_test_on_item_then_key() {
    let s = Value::list(ints(&[5, 1, 2]));
    let item = Value::Integer(3);
    let find = |op: &str, from_end: bool| {
        Runtime::apply_sequence_search(op, &item, &s, 0, None, from_end, false, &"GREATER", &None, call, SPAN).unwrap()
    };
    assert_eq!(find("POSITION", false), Value::Integer(1));
    assert_eq!(find("POSITION", true), Value::Integer(2));
    assert_eq!(find("FIND", false), Value::Integer(1));
    assert_eq!(find("FIND", true), Value::Integer(2));
    assert_eq!(find("COUNT", false), Value::Integer(2));
    let none = Runtime::apply_sequence_search("POSITION", &Value::Integer(0), &s, 0, None, false, false, &"GREATER", &None, call, SPAN)
        .unwrap();
    assert_eq!(none, Value::Nil);
    let keyed = Runtime::apply_sequence_search("POSITION", &Value::Integer(-2), &s, 0, None, false, false, &"EQL", &Some("NEG"), call, SPAN)
        .unwrap();
    assert_eq!(keyed, Value::Integer(2));
    let unknown = Runtime::apply_sequence_search("FROB", &item, &s, 0, None, false, false, &"GREATER", &None, call, SPAN);
    assert!(matches!(unknown, Err(RuntimeError::InvalidForm { message, .. }) if message == "unknown sequence search operation"));
    let bounds = Runtime::apply_sequence_search("FIND", &item, &s, 0, Some(4), false, false, &"GREATER", &None, call, SPAN);
    assert!(matches!(bounds, Err(RuntimeError::InvalidForm { message, .. }) if message == "sequence search bounds are invalid"));
}

#[test]
fn merge_asks_whether_the_second_key_precedes_the_first() {
    let a = Value::list(ints(&[1, 3, 5]));
    let b = Value::list(ints(&[2, 4]));
    let r = Runtime::apply_sequence_merge(&Value::symbol("LIST"), &a, &b, &"<", &None, call, SPAN).unwrap();
    assert_eq!(r, Value::list(ints(&[1, 2, 3, 4, 5])));
    // The predicate gets (second key, first key): with > the merge is descending.
    let a = Value::list(ints(&[5, 3, 1]));
    let b = Value::list(ints(&[4, 2]));
    let r = Runtime::apply_sequence_merge(&Value::symbol("VECTOR"), &a, &b, &"GREATER", &None, call, SPAN).unwrap();
    assert_eq!(r, Value::vector(ints(&[5, 4, 3, 2, 1])));
}

#[test]
fn merge_keeps_the_first_sequence_first_on_ties() {
    let a = Value::list(ints(&[1, -2]));
    let b = Value::list(ints(&[-1, 2]));
    let r = Runtime::apply_sequence_merge(&Value::symbol("LIST"), &a, &b, &"<", &Some("ABS"), call, SPAN).unwrap();
    assert_eq!(r, Value::list(ints(&[1, -1, -2, 2])));
}

#[test]
fn merge_result_types() {
    let a = Value::string("ac");
    let b = Value::string("b");
    let less = |h: &&'static str, args: &Vec<Value>| -> Result<Value, RuntimeError> {
        match (*h, &args[0], &args[1]) {
            ("CHAR<", Value::Character(x), Value::Character(y)) => Ok(Value::boolean(x < y)),
            _ => call(h, args),
        }
    };
    let r = Runtime::apply_sequence_merge(&Value::symbol("BASE-STRING"), &a, &b, &"CHAR<", &None, less, SPAN).unwrap();
    assert_eq!(r, Value::string("abc"));
    let r = Runtime::apply_sequence_merge(&Value::symbol("SIMPLE-BASE-STRING"), &a, &b, &"CHAR<", &None, less, SPAN).unwrap();
    assert_eq!(r, Value::string("abc"));
    let r = Runtime::apply_sequence_merge(&Value::Nil, &a, &b, &"CHAR<", &None, less, SPAN).unwrap();
    assert_eq!(r, Value::Nil);
    let r = Runtime::apply_sequence_merge(&Value::symbol("HASH-TABLE"), &a, &b, &"CHAR<", &None, less, SPAN);
    assert!(matches!(r, Err(RuntimeError::InvalidForm { message, .. })
        if message == "merge result type must be LIST, VECTOR, STRING, or NIL"));
    let nums = Value::list(ints(&[1]));
    let r = Runtime::apply_sequence_merge(&Value::symbol("STRING"), &nums, &Value::Nil, &"<", &None, call, SPAN);
    assert!(matches!(r, Err(RuntimeError::Type { expected, .. }) if expected == "CHARACTER"));
    let r = Runtime::apply_sequence_merge(&Value::symbol("LIST"), &Value::Integer(1), &nums, &"<", &None, call, SPAN);
    assert!(matches!(r, Err(RuntimeError::Type { expected, .. }) if expected == "SEQUENCE"));
}

#[test]
fn the_default_test_is_eql() {
    let t = test_designator(false, &Value::Integer(1), &None, &None);
    assert_eq!(t, Value::symbol("EQL"));
    let given = Value::symbol("EQUAL");
    assert_eq!(test_designator(false, &Value::Integer(1), &Some(given.clone()), &None), given);
    assert_eq!(test_designator(true, &Value::symbol("EVENP"), &None, &None), Value::symbol("EVENP"));
}

#[test]
fn remove_duplicates_drops_the_earlier_occurrence_unless_from_end() {
    let s = Value::list(ints(&[1, 2, 3, 2, 4, 4, 5]));
    let r = Runtime::apply_sequence_remove_duplicates(&s, 0, None, false, false, &"EQL", &None, call, SPAN).unwrap();
    assert_eq!(r, Value::list(ints(&[1, 3, 2, 4, 5])));
    let r = Runtime::apply_sequence_remove_duplicates(&s, 0, None, true, false, &"EQL", &None, call, SPAN).unwrap();
    assert_eq!(r, Value::list(ints(&[1, 2, 3, 4, 5])));
    // Keys compare: 1 and -1 are duplicates under ABS.
    let v = Value::vector(ints(&[1, -1, 2]));
    let r = Runtime::apply_sequence_remove_duplicates(&v, 0, None, false, false, &"EQL", &Some("ABS"), call, SPAN).unwrap();
    assert_eq!(r, Value::vector(ints(&[-1, 2])));
    // Only [1, 3) is scanned.
    let r = Runtime::apply_sequence_remove_duplicates(&s, 1, Some(4), false, false, &"EQL", &None, call, SPAN).unwrap();
    assert_eq!(r, Value::list(ints(&[1, 3, 2, 4, 4, 5])));
}

#[test]
fn remove_duplicates_calls_the_test_on_the_candidate_then_the_kept_one() {
    // Scanning from the end, 2 is kept; 1 > 2 is false, so 1 is kept; 3 > 2 drops 3.
    let s = Value::list(ints(&[3, 1, 2]));
    let r = Runtime::apply_sequence_remove_duplicates(&s, 0, None, false, false, &"GREATER", &None, call, SPAN).unwrap();
    assert_eq!(r, Value::list(ints(&[1, 2])));
    let bounds = Runtime::apply_sequence_remove_duplicates(&s, 2, Some(1), false, false, &"EQL", &None, call, SPAN);
    assert!(matches!(bounds, Err(RuntimeError::InvalidForm { message, .. }) if message == "sequence removal bounds are invalid"));
    let failing = Runtime::apply_sequence_remove_duplicates(&s, 0, None, false, false, &"MISSING", &None, call, SPAN);
    assert!(matches!(failing, Err(RuntimeError::InvalidForm { .. })));
}

fn same_char(a: &Value, b: &Value) -> Result<bool, RuntimeError> {
    Ok(a.eq_value(b))
}

#[test]
fn pair_search_reads_options_then_checks_bounds() {
    let needle = Value::string("bc");
    let hay = Value::string("abcdbc");
    let r = Runtime::apply_sequence_pair_search("SEARCH", &needle, &hay, &[], same_char, SPAN).unwrap();
    assert_eq!(r, Value::Integer(1));
    let from_end = [Value::keyword("from-end"), Value::boolean(true)];
    let r = Runtime::apply_sequence_pair_search("SEARCH", &needle, &hay, &from_end, same_char, SPAN).unwrap();
    assert_eq!(r, Value::Integer(4));
    let r = Runtime::apply_sequence_pair_search("MISMATCH", &Value::string("abc"), &Value::string("abd"), &[], same_char, SPAN)
        .unwrap();
    assert_eq!(r, Value::Integer(2));
    let bad_end = [Value::keyword("end1"), Value::Integer(5)];
    let r = Runtime::apply_sequence_pair_search("SEARCH", &needle, &hay, &bad_end, same_char, SPAN);
    assert!(matches!(r, Err(RuntimeError::InvalidForm { message, .. }) if message == "sequence pair search bounds are invalid"));
    let negative = [Value::keyword("start1"), Value::Integer(-1)];
    let r = Runtime::apply_sequence_pair_search("SEARCH", &needle, &hay, &negative, same_char, SPAN);
    assert!(matches!(r, Err(RuntimeError::InvalidForm { message, .. }) if message == "sequence pair search :start1 must be non-negative"));
    let r = Runtime::apply_sequence_pair_search("FROB", &needle, &hay, &[], same_char, SPAN);
    assert!(matches!(r, Err(RuntimeError::InvalidForm { message, .. }) if message == "unknown sequence pair search operation"));
    let r = Runtime::apply_sequence_pair_search("SEARCH", &Value::Integer(1), &hay, &[], same_char, SPAN);
    assert!(matches!(r, Err(RuntimeError::Type { expected, .. }) if expected == "SEQUENCE"));
}
