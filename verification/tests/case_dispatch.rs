use ncl_runtime::case_dispatch::CaseChoice;
use ncl_runtime::error::RuntimeError;
use ncl_runtime::runtime::Runtime;
use ncl_runtime::syntax::{Form, Span};
use ncl_runtime::value::Value;

const SPAN: Span = Span { start: 0, end: 1 };

fn atom(name: &str) -> Form {
    Form::atom(name, SPAN)
}

fn list(items: Vec<Form>) -> Form {
    Form::list(items, SPAN)
}

fn equals(key: Value) -> impl Fn(&Value) -> Result<bool, RuntimeError> {
    move |candidate: &Value| Ok(*candidate == key)
}

fn clauses() -> Vec<Form> {
    vec![
        list(vec![list(vec![atom("1"), atom("2")]), atom("one-or-two")]),
        list(vec![atom("otherwise"), atom("fallback")]),
        list(vec![atom("3"), atom("three")]),
    ]
}

#[test]
fn case_takes_the_first_clause_with_a_matching_key() {
    let clauses = clauses();
    assert_eq!(
        Runtime::case_clause(&clauses, false, SPAN, equals(Value::Integer(2))),
        Ok(CaseChoice::Clause(0))
    );
    // A default clause before a matching one does not stop the scan.
    assert_eq!(
        Runtime::case_clause(&clauses, false, SPAN, equals(Value::Integer(3))),
        Ok(CaseChoice::Clause(2))
    );
    assert_eq!(
        Runtime::case_clause(&clauses, true, SPAN, equals(Value::Integer(9))),
        Ok(CaseChoice::Default(1))
    );
}

#[test]
fn case_without_a_default_misses_and_ecase_reports_it() {
    let clauses = vec![list(vec![atom("1"), atom("one")])];
    assert_eq!(
        Runtime::case_clause(&clauses, false, SPAN, equals(Value::Integer(5))),
        Ok(CaseChoice::Miss)
    );
    match Runtime::case_clause(&clauses, true, SPAN, equals(Value::Integer(5))) {
        Err(RuntimeError::InvalidForm { message, .. }) => assert_eq!(message, "ecase fell through"),
        other => panic!("expected ecase to fall through, got {other:?}"),
    }
}

#[test]
fn case_rejects_malformed_clauses_it_reaches() {
    let malformed = vec![atom("x")];
    match Runtime::case_clause(&malformed, false, SPAN, equals(Value::Integer(1))) {
        Err(RuntimeError::InvalidForm { message, .. }) => {
            assert_eq!(message, "case clauses must be lists")
        }
        other => panic!("expected an invalid clause, got {other:?}"),
    }
    let empty = vec![list(vec![])];
    match Runtime::case_clause(&empty, false, SPAN, equals(Value::Integer(1))) {
        Err(RuntimeError::InvalidForm { message, .. }) => {
            assert_eq!(message, "case clause cannot be empty")
        }
        other => panic!("expected an empty clause, got {other:?}"),
    }
    // A clause after the taken one is never looked at.
    let later = vec![list(vec![atom("1"), atom("one")]), atom("x")];
    assert_eq!(
        Runtime::case_clause(&later, false, SPAN, equals(Value::Integer(1))),
        Ok(CaseChoice::Clause(0))
    );
}

#[test]
fn typecase_asks_about_the_whole_type_and_passes_errors_on() {
    let clauses = vec![
        list(vec![list(vec![atom("or"), atom("integer")]), atom("number")]),
        list(vec![atom("t"), atom("anything")]),
    ];
    let is_list = |candidate: &Value| -> Result<bool, RuntimeError> {
        Ok(matches!(candidate, Value::List(_)))
    };
    assert_eq!(
        Runtime::typecase_clause(&clauses, false, SPAN, is_list),
        Ok(CaseChoice::Clause(0))
    );
    let failing = |_: &Value| -> Result<bool, RuntimeError> { Err(RuntimeError::NumericOverflow) };
    assert_eq!(
        Runtime::typecase_clause(&clauses, false, SPAN, failing),
        Err(RuntimeError::NumericOverflow)
    );
    let never = |_: &Value| -> Result<bool, RuntimeError> { Ok(false) };
    assert_eq!(
        Runtime::typecase_clause(&clauses, true, SPAN, never),
        Ok(CaseChoice::Default(1))
    );
    match Runtime::typecase_clause(&clauses[..1], true, SPAN, never) {
        Err(RuntimeError::InvalidForm { message, .. }) => {
            assert_eq!(message, "etypecase fell through")
        }
        other => panic!("expected etypecase to fall through, got {other:?}"),
    }
}
