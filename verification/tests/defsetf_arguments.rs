use ncl_runtime::defsetf_arguments::{defsetf_argument_layout, defsetf_keyword_pairs, latest_pair};
use ncl_runtime::error::RuntimeError;
use ncl_runtime::lambda_arguments::ArgumentLayout;
use ncl_runtime::syntax::{Form, Span};

const SPAN: Span = Span { start: 0, end: 1 };

fn atom(name: &str) -> Form {
    Form::atom(name, SPAN)
}

fn invalid_message<T: std::fmt::Debug>(result: Result<T, RuntimeError>) -> String {
    match result {
        Err(RuntimeError::InvalidForm { message, .. }) => message,
        other => panic!("expected an invalid form, got {other:?}"),
    }
}

#[test]
fn defsetf_layout_counts_optionals_and_checks_arity() {
    let args = [atom("a"), atom("b")];
    assert_eq!(
        defsetf_argument_layout("my-place", &args, 1, 2, false, false),
        Ok(ArgumentLayout {
            optional_supplied: 1,
            key_start: 2
        })
    );
    assert_eq!(
        defsetf_argument_layout("my-place", &args, 3, 0, false, false),
        Err(RuntimeError::Arity {
            function: "MY-PLACE".to_string(),
            expected: "at least 3".to_string(),
            actual: 2,
        })
    );
    assert_eq!(
        defsetf_argument_layout("my-place", &args, 1, 0, false, false),
        Err(RuntimeError::Arity {
            function: "MY-PLACE".to_string(),
            expected: "at most 1".to_string(),
            actual: 2,
        })
    );
    let keyed = [atom("a"), atom(":key"), atom("v")];
    assert_eq!(
        defsetf_argument_layout("my-place", &keyed, 0, 2, false, true),
        Ok(ArgumentLayout {
            optional_supplied: 1,
            key_start: 1
        })
    );
}

#[test]
fn defsetf_keyword_pairs_are_read_and_checked() {
    let keywords = vec!["COLOR".to_string()];
    let args = [atom(":color"), atom("red"), atom(":color"), atom("blue")];
    let pairs = defsetf_keyword_pairs(&args, false, &keywords, SPAN).expect("known keywords");
    assert_eq!(
        pairs,
        vec![("COLOR".to_string(), 1), ("COLOR".to_string(), 3)]
    );
    assert_eq!(latest_pair(&pairs, "COLOR"), Some(3));
    assert_eq!(latest_pair(&pairs, "SIZE"), None);

    let unknown = [atom(":size"), atom("1")];
    assert_eq!(
        invalid_message(defsetf_keyword_pairs(&unknown, false, &keywords, SPAN)),
        "unknown keyword :SIZE"
    );
    assert!(defsetf_keyword_pairs(&unknown, true, &keywords, SPAN).is_ok());
    let allowed = [atom(":size"), atom("1"), atom(":allow-other-keys"), atom("t")];
    assert!(defsetf_keyword_pairs(&allowed, false, &keywords, SPAN).is_ok());
    let not_allowed = [atom(":size"), atom("1"), atom(":allow-other-keys"), atom("nil")];
    assert_eq!(
        invalid_message(defsetf_keyword_pairs(&not_allowed, false, &keywords, SPAN)),
        "unknown keyword :SIZE"
    );
    assert_eq!(
        invalid_message(defsetf_keyword_pairs(&[atom(":size")], false, &keywords, SPAN)),
        "keyword arguments must be supplied in pairs"
    );
    assert_eq!(
        invalid_message(defsetf_keyword_pairs(&[atom("size"), atom("1")], false, &keywords, SPAN)),
        "keyword argument name must be a keyword"
    );
}
