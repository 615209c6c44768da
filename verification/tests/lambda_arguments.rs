use ncl_runtime::error::RuntimeError;
use ncl_runtime::lambda_arguments::{
    argument_layout, check_unknown_keywords, keyword_arguments, keyword_name_matches,
    supplied_keyword_value, ArgumentLayout, ArgumentShapeFailure, KeywordParameter,
    SuppliedKeyword,
};
use ncl_runtime::runtime::Runtime;
use ncl_runtime::syntax::Span;
use ncl_runtime::value::Value;

const SPAN: Span = Span { start: 0, end: 1 };

fn integer(n: i64) -> Value {
    Value::Integer(n)
}

fn key(name: &str) -> Value {
    Value::Keyword(name.to_string())
}

fn parameter(name: &str, escaped: bool) -> KeywordParameter {
    KeywordParameter {
        keyword_name: name.to_string(),
        keyword_name_escaped: escaped,
    }
}

fn supplied(name: &str, value: Value) -> SuppliedKeyword {
    SuppliedKeyword {
        name: name.to_string(),
        value,
    }
}

fn invalid_message(result: Result<(), RuntimeError>) -> String {
    match result {
        Err(RuntimeError::InvalidForm { message, .. }) => message,
        other => panic!("expected an invalid form, got {other:?}"),
    }
}

#[test]
fn argument_layout_counts_supplied_optionals() {
    let args = [integer(1), integer(2), integer(3)];
    assert_eq!(
        argument_layout(&args, 1, 3, false, false),
        Ok(ArgumentLayout {
            optional_supplied: 2,
            key_start: 3
        })
    );
    assert_eq!(
        argument_layout(&args, 4, 0, false, false),
        Err(ArgumentShapeFailure::TooFew)
    );
    assert_eq!(
        argument_layout(&args, 1, 1, false, false),
        Err(ArgumentShapeFailure::TooMany)
    );
    assert_eq!(
        argument_layout(&args, 1, 1, true, false),
        Ok(ArgumentLayout {
            optional_supplied: 1,
            key_start: 2
        })
    );
}

#[test]
fn argument_layout_stops_optionals_at_the_first_keyword() {
    let args = [integer(1), integer(2), key("COLOR"), integer(3)];
    assert_eq!(
        argument_layout(&args, 1, 3, false, true),
        Ok(ArgumentLayout {
            optional_supplied: 1,
            key_start: 2
        })
    );
    let empty: [Value; 0] = [];
    assert_eq!(
        argument_layout(&empty, 0, 2, false, true),
        Ok(ArgumentLayout {
            optional_supplied: 0,
            key_start: 0
        })
    );
}

#[test]
fn structure_constructor_layout_reports_arity() {
    let args = [integer(1)];
    assert_eq!(
        Runtime::structure_constructor_layout(&args, 2, 1, false, false),
        Err(RuntimeError::Arity {
            function: "structure constructor".to_string(),
            expected: "at least 2".to_string(),
            actual: 1,
        })
    );
    assert_eq!(
        Runtime::structure_constructor_layout(&args, 2, 0, false, false),
        Err(RuntimeError::Arity {
            function: "structure constructor".to_string(),
            expected: "2".to_string(),
            actual: 1,
        })
    );
    let many = [integer(1), integer(2), integer(3)];
    assert_eq!(
        Runtime::structure_constructor_layout(&many, 1, 1, false, false),
        Err(RuntimeError::Arity {
            function: "structure constructor".to_string(),
            expected: "at most 2".to_string(),
            actual: 3,
        })
    );
    assert_eq!(
        Runtime::structure_constructor_layout(&many, 0, 0, false, false),
        Err(RuntimeError::Arity {
            function: "structure constructor".to_string(),
            expected: "0".to_string(),
            actual: 3,
        })
    );
}

#[test]
fn keyword_arguments_read_pairs_and_allow_other_keys() {
    let args = [key("COLOR"), integer(1), key("ALLOW-OTHER-KEYS"), Value::Boolean(true)];
    let (pairs, accepts) = keyword_arguments(&args, false, SPAN).expect("pairs");
    assert!(accepts);
    assert_eq!(pairs.len(), 2);
    assert_eq!(pairs[0].name, "COLOR");
    assert_eq!(pairs[0].value, integer(1));

    let off = [key("ALLOW-OTHER-KEYS"), Value::Nil];
    let (_, accepts) = keyword_arguments(&off, false, SPAN).expect("pairs");
    assert!(!accepts);

    let odd = [key("COLOR")];
    match keyword_arguments(&odd, false, SPAN) {
        Err(RuntimeError::InvalidForm { message, .. }) => {
            assert_eq!(message, "keyword arguments must be supplied in pairs")
        }
        _ => panic!("odd keyword arguments are refused"),
    }
    let not_keyword = [integer(1), integer(2)];
    match keyword_arguments(&not_keyword, false, SPAN) {
        Err(RuntimeError::InvalidForm { message, .. }) => {
            assert_eq!(message, "keyword argument name must be a keyword")
        }
        _ => panic!("a non-keyword name is refused"),
    }
}

#[test]
fn keyword_names_match_exactly_only_when_escaped() {
    assert!(keyword_name_matches(&parameter("color", false), &"COLOR".to_string()));
    assert!(!keyword_name_matches(&parameter("color", true), &"COLOR".to_string()));
    assert!(keyword_name_matches(&parameter("color", true), &"color".to_string()));
}

#[test]
fn unknown_keywords_are_reported_unless_accepted() {
    let parameters = vec![parameter("COLOR", false)];
    let given = vec![
        supplied("COLOR", integer(1)),
        supplied("allow-other-keys", Value::Nil),
        supplied("SIZE", integer(2)),
    ];
    assert_eq!(
        invalid_message(check_unknown_keywords(&parameters, &given, false, SPAN)),
        "unknown keyword :SIZE"
    );
    assert!(check_unknown_keywords(&parameters, &given, true, SPAN).is_ok());
    let known = vec![
        supplied("color", integer(1)),
        supplied("allow-other-keys", Value::Nil),
    ];
    assert!(check_unknown_keywords(&parameters, &known, false, SPAN).is_ok());
}

#[test]
fn the_last_matching_keyword_supplies_the_value() {
    let given = vec![
        supplied("COLOR", integer(1)),
        supplied("SIZE", integer(2)),
        supplied("color", integer(3)),
    ];
    assert_eq!(
        supplied_keyword_value(&parameter("COLOR", false), &given),
        Some(integer(3))
    );
    assert_eq!(
        supplied_keyword_value(&parameter("COLOR", true), &given),
        Some(integer(1))
    );
    assert_eq!(supplied_keyword_value(&parameter("WEIGHT", false), &given), None);
}
