use ncl_runtime::error::RuntimeError;
use ncl_runtime::runtime::Runtime;
use ncl_runtime::sequence_quantifiers::{quantify, Quantifier};
use ncl_runtime::syntax::Span;
use ncl_runtime::value::Value;

const SPAN: Span = Span { start: 0, end: 1 };

fn integers(items: &[i64]) -> Vec<Value> {
    items.iter().map(|n| Value::Integer(*n)).collect()
}

fn below(limit: i64) -> impl Fn(&Vec<Value>) -> Result<Value, RuntimeError> {
    move |args: &Vec<Value>| {
        Ok(Value::boolean(
            args.iter()
                .all(|v| matches!(v, Value::Integer(n) if *n < limit)),
        ))
    }
}

#[test]
fn quantifier_names_are_read() {
    assert_eq!(Runtime::sequence_quantifier("SOME", SPAN), Ok(Quantifier::Any));
    assert_eq!(Runtime::sequence_quantifier("NOTEVERY", SPAN), Ok(Quantifier::NotEvery));
    match Runtime::sequence_quantifier("ALL", SPAN) {
        Err(RuntimeError::InvalidForm { message, .. }) => {
            assert_eq!(message, "unknown sequence quantifier operation")
        }
        other => panic!("expected an invalid operation, got {other:?}"),
    }
}

#[test]
fn quantifiers_stop_at_the_deciding_answer() {
    let sequences = vec![integers(&[1, 2, 3]), integers(&[1, 2])];
    assert_eq!(quantify(Quantifier::Every, &sequences, below(3)), Ok(Value::Boolean(true)));
    assert_eq!(quantify(Quantifier::Every, &sequences, below(2)), Ok(Value::Nil));
    assert_eq!(quantify(Quantifier::Any, &sequences, below(2)), Ok(Value::Boolean(true)));
    assert_eq!(quantify(Quantifier::Any, &sequences, below(1)), Ok(Value::Nil));
    assert_eq!(quantify(Quantifier::NotAny, &sequences, below(1)), Ok(Value::Boolean(true)));
    assert_eq!(quantify(Quantifier::NotAny, &sequences, below(2)), Ok(Value::Nil));
    assert_eq!(quantify(Quantifier::NotEvery, &sequences, below(2)), Ok(Value::Boolean(true)));
    assert_eq!(quantify(Quantifier::NotEvery, &sequences, below(9)), Ok(Value::Nil));
}

#[test]
fn some_returns_the_predicate_value_and_errors_end_the_scan() {
    let sequences = vec![integers(&[4, 5])];
    let first = |args: &Vec<Value>| -> Result<Value, RuntimeError> { Ok(args[0].clone()) };
    assert_eq!(quantify(Quantifier::Any, &sequences, first), Ok(Value::Integer(4)));
    let failing = |_: &Vec<Value>| -> Result<Value, RuntimeError> { Err(RuntimeError::NumericOverflow) };
    assert_eq!(
        quantify(Quantifier::Every, &sequences, failing),
        Err(RuntimeError::NumericOverflow)
    );
    let none: Vec<Vec<Value>> = Vec::new();
    assert_eq!(quantify(Quantifier::Every, &none, failing), Ok(Value::Boolean(true)));
}
