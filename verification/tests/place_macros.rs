use ncl_runtime::error::RuntimeError;
use ncl_runtime::place_macros::{
    adjoined, nth_value_of, pop_from, push_onto, remf_update, rotated, shifted, PushnewOption,
};
use ncl_runtime::runtime::Runtime;
use ncl_runtime::syntax::{Form, Span};
use ncl_runtime::value::Value;

const SPAN: Span = Span { start: 0, end: 1 };

fn integer(n: i64) -> Value {
    Value::Integer(n)
}

fn list(items: &[i64]) -> Value {
    Value::list(items.iter().map(|n| integer(*n)).collect())
}

fn invalid_message<T: std::fmt::Debug>(result: Result<T, RuntimeError>) -> String {
    match result {
        Err(RuntimeError::InvalidForm { message, .. }) => message,
        other => panic!("expected an invalid form, got {other:?}"),
    }
}

#[test]
fn push_and_pop_work_on_proper_lists() {
    assert_eq!(push_onto(integer(1), &list(&[2, 3]), SPAN), Ok(list(&[1, 2, 3])));
    assert_eq!(push_onto(integer(1), &Value::Nil, SPAN), Ok(list(&[1])));
    assert_eq!(
        invalid_message(push_onto(integer(1), &integer(2), SPAN)),
        "PUSH place must contain a proper list"
    );
    assert_eq!(pop_from(&list(&[1, 2]), SPAN), Ok((integer(1), list(&[2]))));
    assert_eq!(pop_from(&list(&[1]), SPAN), Ok((integer(1), Value::Nil)));
    assert_eq!(pop_from(&Value::Nil, SPAN), Ok((Value::Nil, Value::Nil)));
    assert_eq!(
        invalid_message(pop_from(&integer(2), SPAN)),
        "POP place must contain a proper list"
    );
}

#[test]
fn pop_gives_back_what_push_added() {
    let start = list(&[4, 5]);
    let pushed = push_onto(integer(9), &start, SPAN).expect("a list");
    assert_eq!(pop_from(&pushed, SPAN), Ok((integer(9), start)));
}

#[test]
fn pushnew_keywords_are_read_in_order() {
    let test = Form::atom(":test", SPAN);
    let test_not = Form::atom(":TEST-NOT", SPAN);
    let key = Form::atom(":key", SPAN);
    assert_eq!(Runtime::pushnew_option(&test, false, false), Ok(PushnewOption::Test));
    assert_eq!(Runtime::pushnew_option(&test_not, false, false), Ok(PushnewOption::TestNot));
    assert_eq!(Runtime::pushnew_option(&key, true, false), Ok(PushnewOption::Key));
    assert_eq!(
        invalid_message(Runtime::pushnew_option(&test, false, true)),
        "PUSHNEW cannot use both :test and :test-not"
    );
    assert_eq!(
        invalid_message(Runtime::pushnew_option(&test_not, true, false)),
        "PUSHNEW cannot use both :test and :test-not"
    );
    assert_eq!(
        invalid_message(Runtime::pushnew_option(&Form::atom(":count", SPAN), false, false)),
        "unknown PUSHNEW keyword :COUNT"
    );
    assert_eq!(
        invalid_message(Runtime::pushnew_option(&Form::atom("test", SPAN), false, false)),
        "PUSHNEW keyword argument name must be a keyword"
    );
}

#[test]
fn pushnew_adds_only_missing_items() {
    let elements = vec![integer(1), integer(2)];
    let same_as = |target: i64| {
        move |candidate: &Value| -> Result<bool, RuntimeError> { Ok(*candidate == Value::Integer(target)) }
    };
    assert_eq!(adjoined(integer(2), &elements, false, same_as(2)), Ok(None));
    assert_eq!(
        adjoined(integer(3), &elements, false, same_as(3)),
        Ok(Some(list(&[3, 1, 2])))
    );
    // With :test-not the first element the test rejects counts as present.
    assert_eq!(adjoined(integer(3), &elements, true, same_as(1)), Ok(None));
    let failing = |_: &Value| -> Result<bool, RuntimeError> { Err(RuntimeError::NumericOverflow) };
    assert_eq!(
        adjoined(integer(3), &elements, false, failing),
        Err(RuntimeError::NumericOverflow)
    );
    let empty: Vec<Value> = Vec::new();
    assert_eq!(adjoined(integer(3), &empty, false, failing), Ok(Some(list(&[3]))));
}

#[test]
fn remf_removes_the_first_entry() {
    let plist = Value::list(vec![
        Value::keyword("A"),
        integer(1),
        Value::keyword("B"),
        integer(2),
        Value::keyword("A"),
        integer(3),
    ]);
    assert_eq!(
        remf_update(&plist, &Value::keyword("A"), SPAN),
        Ok(Some(Value::list(vec![
            Value::keyword("B"),
            integer(2),
            Value::keyword("A"),
            integer(3)
        ])))
    );
    assert_eq!(remf_update(&plist, &Value::keyword("C"), SPAN), Ok(None));
    let single = Value::list(vec![Value::keyword("A"), integer(1)]);
    assert_eq!(remf_update(&single, &Value::keyword("A"), SPAN), Ok(Some(Value::Nil)));
    assert_eq!(
        invalid_message(remf_update(&list(&[1]), &Value::keyword("A"), SPAN)),
        "REMF needs an even property list"
    );
    assert_eq!(
        remf_update(&integer(1), &Value::keyword("A"), SPAN),
        Err(RuntimeError::Type {
            expected: "LIST".to_string(),
            actual: "INTEGER".to_string(),
            span: Some(SPAN),
        })
    );
}

#[test]
fn rotatef_and_shiftf_move_values_between_places() {
    assert_eq!(
        rotated(&vec![integer(1), integer(2), integer(3)]),
        Some(vec![integer(3), integer(1), integer(2)])
    );
    assert_eq!(rotated(&vec![integer(1)]), None);
    assert_eq!(
        shifted(&vec![integer(1), integer(2), integer(3)], integer(4)),
        (vec![integer(2), integer(3), integer(4)], integer(1))
    );
    assert_eq!(shifted(&vec![integer(1)], integer(4)), (vec![integer(4)], integer(1)));
}

#[test]
fn nth_value_reads_its_index_and_picks_a_value() {
    assert_eq!(Runtime::nth_value_index(&integer(2), SPAN), Ok(2));
    assert_eq!(
        invalid_message(Runtime::nth_value_index(&integer(-1), SPAN)),
        "nth-value index must be non-negative"
    );
    assert_eq!(
        Runtime::nth_value_index(&Value::Nil, SPAN),
        Err(RuntimeError::Type {
            expected: "INTEGER".to_string(),
            actual: "NULL".to_string(),
            span: Some(SPAN),
        })
    );
    let values = vec![integer(7), integer(8)];
    assert_eq!(nth_value_of(&values, 1), integer(8));
    assert_eq!(nth_value_of(&values, 2), Value::Nil);
}
