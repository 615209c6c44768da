use ncl_runtime::conditions::RestartBinding;
use ncl_runtime::error::RuntimeError;
use ncl_runtime::runtime::Runtime;
use ncl_runtime::syntax::Span;
use ncl_runtime::value::Value;

const SPAN: Span = Span { start: 0, end: 1 };

#[test]
fn restart_invocation_error_preserves_multiple_argument_values() {
    let error = Runtime::restart_invocation_error(":continue", &[Value::Integer(1), Value::Integer(2)], SPAN);

    assert!(matches!(error, RuntimeError::InvokeRestart { name, arguments, .. }
        if name == ":CONTINUE" && arguments.len() == 2));
}

#[test]
fn restart_binding_designators_match_latest_name_or_restart_value() {
    let bindings = vec![
        RestartBinding::new("continue".into(), None),
        RestartBinding::new("finish".into(), Some(Value::Integer(1))),
    ];

    for designator in [Value::Symbol("continue".into()), bindings[0].restart.clone()] {
        let result = Runtime::restart_binding_for_designator_in(&designator, &bindings, SPAN);
        assert!(matches!(result, Ok(Some(binding)) if binding.name == "continue"));
    }

    assert!(Runtime::restart_binding_for_designator_in(&Value::Integer(1), &bindings, SPAN).is_err());
}

#[test]
fn restart_invocation_value_depends_on_argument_count() {
    match Runtime::restart_invocation_error("abort", &[], SPAN) {
        RuntimeError::InvokeRestart { name, value, arguments, span } => {
            assert_eq!(name, "ABORT");
            assert_eq!(value, Value::Nil);
            assert!(arguments.is_empty());
            assert_eq!(span, Some(SPAN));
        }
        other => panic!("unexpected {other:?}"),
    }
    match Runtime::restart_invocation_error("use-value", &[Value::Integer(7)], SPAN) {
        RuntimeError::InvokeRestart { value, .. } => assert_eq!(value, Value::Integer(7)),
        other => panic!("unexpected {other:?}"),
    }
    match Runtime::restart_invocation_error("both", &[Value::Integer(1), Value::Integer(2)], SPAN) {
        RuntimeError::InvokeRestart { value, .. } => {
            assert_eq!(value, Value::values(vec![Value::Integer(1), Value::Integer(2)]))
        }
        other => panic!("unexpected {other:?}"),
    }
}

#[test]
fn restart_lookup_prefers_the_most_recent_binding() {
    let bindings = vec![
        RestartBinding::new("retry".into(), Some(Value::Integer(1))),
        RestartBinding::new("RETRY".into(), Some(Value::Integer(2))),
    ];
    let found = Runtime::restart_binding_named("retry", &bindings, &[], SPAN).unwrap();
    assert_eq!(found.function, Some(Value::Integer(2)));

    let missing = Runtime::restart_binding_named("other", &bindings, &[Value::Integer(3)], SPAN);
    assert!(matches!(missing, Err(RuntimeError::InvokeRestart { name, .. }) if name == "OTHER"));

    assert_eq!(
        Runtime::restart_binding_for_designator_in(&Value::restart("nope"), &bindings, SPAN).unwrap().is_none(),
        true
    );
}

#[test]
fn restart_functions_are_applied_or_unwound_to() {
    let with_function = RestartBinding::new("go".into(), Some(Value::Integer(5)));
    assert_eq!(Runtime::restart_function(&with_function, &[], SPAN).unwrap(), Value::Integer(5));
    let bare = RestartBinding::new("stop".into(), None);
    assert!(matches!(Runtime::restart_function(&bare, &[], SPAN),
        Err(RuntimeError::InvokeRestart { name, .. }) if name == "STOP"));
    assert_eq!(Runtime::condition_format_control(&Value::string("~A")), Some("~A".to_string()));
    assert_eq!(Runtime::condition_format_control(&Value::Integer(1)), None);
}

fn plain_format(control: &String, arguments: &[Value]) -> Result<String, RuntimeError> {
    if arguments.is_empty() {
        Ok(control.clone())
    } else {
        Err(RuntimeError::InvalidForm {
            message: "this formatter takes no arguments".to_string(),
            span: None,
        })
    }
}

#[test]
fn condition_message_uses_string_controls_and_accepts_plain_values_without_arguments() {
    let cases = [
        (Value::String("hello".into()), Vec::new(), "hello"),
        (Value::Integer(42), Vec::new(), "42"),
    ];

    for (value, arguments, expected) in cases {
        let result = Runtime::condition_message(&value, &arguments, SPAN, plain_format);
        assert!(matches!(&result, Ok(actual) if actual == expected));
    }
}

#[test]
fn condition_message_rejects_non_string_controls_with_arguments() {
    let result = Runtime::condition_message(&Value::Integer(42), &[Value::Integer(1)], SPAN, plain_format);

    assert!(matches!(result, Err(RuntimeError::Type { expected, .. }) if expected == "a string format control"));
}

#[test]
fn condition_parts_read_format_initargs() {
    let parts = Runtime::condition_parts(
        &[
            Value::Symbol("simple-condition".into()),
            Value::Keyword("format-control".into()),
            Value::String("value: ~A".into()),
            Value::Keyword("format-arguments".into()),
            Value::list(vec![Value::Integer(7)]),
        ],
        SPAN,
    )
    .unwrap_or_else(|_| panic!("valid initargs"));
    assert_eq!(parts.condition_type, "SIMPLE-CONDITION");
    assert_eq!(parts.format_control.as_deref(), Some("value: ~A"));
    assert_eq!(parts.format_arguments, vec![Value::Integer(7)]);

    let bare = Runtime::condition_parts(&[Value::Symbol("warning".into())], SPAN)
        .unwrap_or_else(|_| panic!("a bare type"));
    assert_eq!(bare.format_control, None);
    assert!(bare.format_arguments.is_empty());
}

#[test]
fn condition_parts_reject_invalid_initargs() {
    for arguments in [
        vec![Value::Symbol("condition".into()), Value::Keyword("unknown".into()), Value::Nil],
        vec![Value::Symbol("condition".into()), Value::Keyword("format-control".into())],
        vec![Value::Symbol("condition".into()), Value::Keyword("format-control".into()), Value::Integer(1)],
        vec![Value::Symbol("condition".into()), Value::Keyword("format-arguments".into()), Value::Integer(1)],
        vec![],
    ] {
        assert!(Runtime::condition_parts(&arguments, SPAN).is_err());
    }
    match Runtime::condition_parts(
        &[Value::Symbol("condition".into()), Value::Keyword("unknown".into()), Value::Nil],
        SPAN,
    ) {
        Err(RuntimeError::InvalidForm { message, .. }) => {
            assert_eq!(message, "unknown make-condition initarg :UNKNOWN")
        }
        _ => panic!("expected an unknown initarg"),
    }
}
