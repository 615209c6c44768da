use ncl_runtime::error::RuntimeError;
use ncl_runtime::runtime::Runtime;
use ncl_runtime::stream_forms::{string_input_arguments, StringInputOption};
use ncl_runtime::syntax::{Form, FormKind, Span};
use ncl_runtime::value::Value;

const SPAN: Span = Span { start: 0, end: 1 };

fn atom(name: &str) -> Form {
    Form::atom(name, SPAN)
}

fn list(items: Vec<Form>) -> Form {
    Form::list(items, SPAN)
}

fn invalid_message<T: std::fmt::Debug>(result: Result<T, RuntimeError>) -> String {
    match result {
        Err(RuntimeError::InvalidForm { message, .. }) => message,
        other => panic!("expected an invalid form, got {other:?}"),
    }
}

#[test]
fn output_string_bindings_name_one_or_two_variables() {
    let form = [atom("with-output-to-string"), list(vec![atom("s")]), atom("body")];
    assert_eq!(Runtime::output_string_binding(&form), Ok(("S".to_string(), None)));
    let with_destination = [atom("with-output-to-string"), list(vec![atom("s"), atom("out")])];
    assert_eq!(
        Runtime::output_string_binding(&with_destination),
        Ok(("S".to_string(), Some("OUT".to_string())))
    );
    let empty = [atom("with-output-to-string"), list(vec![])];
    assert_eq!(
        invalid_message(Runtime::output_string_binding(&empty)),
        "with-output-to-string binding needs one or two variables"
    );
    let not_list = [atom("with-output-to-string"), atom("s")];
    assert_eq!(
        invalid_message(Runtime::output_string_binding(&not_list)),
        "with-output-to-string binding must be a list"
    );
    let bad_destination = [atom("with-output-to-string"), list(vec![atom("s"), atom("1")])];
    assert_eq!(
        invalid_message(Runtime::output_string_binding(&bad_destination)),
        "with-output-to-string destination"
    );
    assert_eq!(
        Runtime::output_string_binding(&[atom("with-output-to-string")]),
        Err(RuntimeError::Arity {
            function: "with-output-to-string".to_string(),
            expected: "at least one".to_string(),
            actual: 0,
        })
    );
}

#[test]
fn input_string_bindings_and_options_are_read() {
    let binding = list(vec![
        atom("in"),
        Form::new(FormKind::String("text".to_string()), SPAN),
        atom(":start"),
        atom("1"),
        atom(":index"),
        atom("pos"),
        atom(":end"),
        atom("3"),
    ]);
    let form = [atom("with-input-from-string"), binding, atom("body")];
    let (forms, variable) = Runtime::input_string_binding(&form).expect("a binding");
    assert_eq!(variable, "IN");
    assert_eq!(Runtime::input_string_option(forms, 2), Ok(StringInputOption::Start));
    assert_eq!(
        Runtime::input_string_option(forms, 4),
        Ok(StringInputOption::Index("POS".to_string()))
    );
    assert_eq!(Runtime::input_string_option(forms, 6), Ok(StringInputOption::End));
    assert_eq!(
        invalid_message(Runtime::input_string_option(forms, 7)),
        "with-input-from-string option needs a value"
    );
    assert_eq!(
        invalid_message(Runtime::input_string_option(forms, 1)),
        "with-input-from-string option must be a keyword"
    );
    assert_eq!(
        invalid_message(Runtime::input_string_option(forms, 3)),
        "unknown with-input-from-string option"
    );
    let short = [atom("with-input-from-string"), list(vec![atom("in")]), atom("body")];
    assert_eq!(
        invalid_message(Runtime::input_string_binding(&short).map(|(_, v)| v)),
        "with-input-from-string binding needs a stream variable and string"
    );
}

#[test]
fn input_stream_arguments_default_the_start() {
    let text = Value::String("abc".to_string());
    assert_eq!(string_input_arguments(text.clone(), None, None), vec![text.clone()]);
    assert_eq!(
        string_input_arguments(text.clone(), None, Some(Value::Integer(2))),
        vec![text.clone(), Value::Integer(0), Value::Integer(2)]
    );
    assert_eq!(
        string_input_arguments(text.clone(), Some(Value::Integer(1)), None),
        vec![text, Value::Integer(1)]
    );
}
