use ncl_runtime::error::RuntimeError;
use ncl_runtime::prog_bindings::ProgBinding;
use ncl_runtime::runtime::Runtime;
use ncl_runtime::syntax::{Form, FormKind, Span};

const SPAN: Span = Span { start: 0, end: 1 };

fn atom(name: &str) -> Form {
    Form::atom(name, SPAN)
}

fn list(items: Vec<Form>) -> Form {
    Form::list(items, SPAN)
}

fn binding(name: &str, escaped: bool, has_init: bool) -> ProgBinding {
    ProgBinding {
        name: name.to_string(),
        escaped,
        has_init,
    }
}

fn invalid_message<T: std::fmt::Debug>(result: Result<T, RuntimeError>) -> String {
    match result {
        Err(RuntimeError::InvalidForm { message, .. }) => message,
        other => panic!("expected an invalid form, got {other:?}"),
    }
}

#[test]
fn prog_bindings_read_symbols_and_lists() {
    let forms = vec![
        atom("a"),
        list(vec![atom("b"), atom("1")]),
        list(vec![atom("c")]),
        atom("|a|"),
    ];
    assert_eq!(
        Runtime::prog_bindings(&forms),
        Ok(vec![
            binding("A", false, false),
            binding("B", false, true),
            binding("C", false, false),
            binding("a", true, false),
        ])
    );
    assert_eq!(Runtime::prog_bindings(&Vec::new()), Ok(Vec::new()));
}

#[test]
fn prog_bindings_reject_repeated_and_malformed_bindings() {
    let repeated = vec![atom("a"), list(vec![atom("A"), atom("1")])];
    assert_eq!(
        invalid_message(Runtime::prog_bindings(&repeated)),
        "prog binding names must be unique"
    );
    let too_long = vec![list(vec![atom("a"), atom("1"), atom("2")])];
    assert_eq!(
        invalid_message(Runtime::prog_bindings(&too_long)),
        "prog binding needs a name and optional value"
    );
    let text = vec![Form::new(FormKind::String("a".to_string()), SPAN)];
    assert_eq!(
        invalid_message(Runtime::prog_bindings(&text)),
        "prog binding must be a symbol or list"
    );
    let bad_name = vec![list(vec![Form::new(FormKind::String("a".to_string()), SPAN)])];
    assert_eq!(
        invalid_message(Runtime::prog_bindings(&bad_name)),
        "prog binding name must be a symbol"
    );
}

#[test]
fn prog_needs_a_binding_list() {
    let forms = [atom("prog"), list(vec![atom("x")]), atom("body")];
    let bindings = Runtime::prog_binding_forms(&forms, false).expect("a binding list");
    assert_eq!(bindings.len(), 1);
    assert_eq!(
        Runtime::prog_binding_forms(&[atom("prog*")], true).map(|forms| forms.len()),
        Err(RuntimeError::Arity {
            function: "prog*".to_string(),
            expected: "at least one".to_string(),
            actual: 0,
        })
    );
    assert_eq!(
        invalid_message(Runtime::prog_binding_forms(&[atom("prog"), atom("x")], false)),
        "prog bindings must be a list"
    );
}
