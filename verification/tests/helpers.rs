use ncl_runtime::error::RuntimeError;
use ncl_runtime::helpers::{
    atom_name, control_tag, eval_when_executes, is_case_default_form, is_macro_keyword_form, is_nil_form, is_operator_form,
    is_special_form, is_special_operator_name, macro_dotted_parts, macro_keyword_name, prefix_argument,
    quasiquote_marker, setf_place_uses_multiple_values,
};
use ncl_runtime::syntax::{Form, FormKind, Span};
use ncl_runtime::value::Value;

const SPAN: Span = Span { start: 0, end: 1 };

fn atom(text: &str) -> Form {
    Form::atom(text, SPAN)
}

fn list(items: Vec<Form>) -> Form {
    Form::list(items, SPAN)
}

#[test]
fn atoms_and_nil_are_recognised() {
    assert_eq!(atom_name(&atom("car")), Some("car"));
    assert_eq!(atom_name(&Form::new(FormKind::String("car".to_string()), SPAN)), None);
    assert!(is_nil_form(&atom("Nil")));
    assert!(!is_nil_form(&atom("nill")));
    assert!(!is_nil_form(&list(vec![])));
}

#[test]
fn keyword_forms_name_their_keyword() {
    assert_eq!(macro_keyword_name(&atom(":key")), Some("KEY".to_string()));
    assert_eq!(macro_keyword_name(&atom(":")), None);
    assert_eq!(macro_keyword_name(&atom("key")), None);
    assert!(is_macro_keyword_form(&atom(":test")));
    assert!(!is_macro_keyword_form(&atom("test")));
}

#[test]
fn control_tags_cover_symbols_numbers_and_keywords() {
    assert_eq!(control_tag(&atom("start")), Some("START".to_string()));
    assert_eq!(control_tag(&atom(":done")), Some(":DONE".to_string()));
    assert_eq!(control_tag(&atom("10")), Some("10".to_string()));
    assert_eq!(control_tag(&atom("nil")), Some("NIL".to_string()));
    assert_eq!(control_tag(&atom("1.5")), None);
    assert_eq!(control_tag(&atom(":")), None);
    assert_eq!(control_tag(&list(vec![])), None);
}

#[test]
fn operator_names_and_forms_are_classified() {
    assert!(is_special_operator_name("let*"));
    assert!(is_special_operator_name("cl:progn"));
    assert!(!is_special_operator_name("defun"));
    assert!(is_special_form(&atom("defun")));
    assert!(is_special_form(&atom("mapcar")));
    assert!(!is_special_form(&atom("car")));
    assert!(is_case_default_form(&atom("otherwise")));
    assert!(is_case_default_form(&atom("t")));
    assert!(!is_case_default_form(&atom("|T|")));
    assert!(!is_case_default_form(&atom(":t")));
    assert!(is_operator_form(&list(vec![atom("Quote"), atom("x")]), "quote"));
    assert!(!is_operator_form(&list(vec![]), "quote"));
    assert!(!is_operator_form(&atom("quote"), "quote"));
}

#[test]
fn prefix_arguments_and_markers() {
    let items = vec![atom("function"), atom("car")];
    let argument = prefix_argument(&items, "FUNCTION").map(|form| atom_name(form));
    assert_eq!(argument, Some(Some("car")));
    assert!(prefix_argument(&items[..1], "function").is_none());
    assert!(prefix_argument(&items, "quote").is_none());

    let marker = quasiquote_marker("unquote", Value::Integer(1));
    assert_eq!(marker, Value::list(vec![Value::symbol("UNQUOTE"), Value::Integer(1)]));
}

#[test]
fn dotted_parts_flatten_nested_tails() {
    let inner = Value::dotted_list(vec![Value::Integer(2)], Value::Integer(3));
    let outer = Value::dotted_list(vec![Value::Integer(1)], inner);
    let (items, tail) = macro_dotted_parts(&outer).unwrap();
    assert_eq!(items, vec![Value::Integer(1), Value::Integer(2)]);
    assert_eq!(tail, Value::Integer(3));

    let proper = Value::list(vec![Value::Integer(1)]);
    assert_eq!(macro_dotted_parts(&proper), Some((vec![Value::Integer(1)], Value::Nil)));
    assert_eq!(macro_dotted_parts(&Value::Nil), Some((vec![], Value::Nil)));
    assert_eq!(macro_dotted_parts(&Value::Integer(1)), None);
}

#[test]
fn eval_when_runs_its_body_for_execute() {
    let situations = Form::list(
        vec![atom(":compile-toplevel"), atom("load-toplevel"), atom("Execute")],
        SPAN,
    );
    assert_eq!(eval_when_executes(&situations), Ok(true));
    let compile_only = Form::list(vec![atom(":compile-toplevel")], SPAN);
    assert_eq!(eval_when_executes(&compile_only), Ok(false));
    assert_eq!(eval_when_executes(&Form::list(vec![], SPAN)), Ok(false));
    let qualified = Form::list(vec![atom("cl-user::execute")], SPAN);
    assert_eq!(eval_when_executes(&qualified), Ok(false));
}

#[test]
fn eval_when_rejects_situations_that_are_no_symbols() {
    for bad in [atom("1"), atom("#:execute"), atom("nil")] {
        let situations = Form::list(vec![atom("execute"), bad], SPAN);
        match eval_when_executes(&situations) {
            Err(RuntimeError::InvalidForm { message, .. }) => {
                assert_eq!(message, "eval-when situations must contain symbols")
            }
            other => panic!("expected an invalid situation, got {other:?}"),
        }
    }
    match eval_when_executes(&atom("execute")) {
        Err(RuntimeError::InvalidForm { message, .. }) => {
            assert_eq!(message, "eval-when situations must be a list")
        }
        other => panic!("expected an invalid situation list, got {other:?}"),
    }
}

#[test]
fn values_places_are_recognized_as_written() {
    let place = Form::list(vec![atom("VALUES"), atom("a"), atom("b")], SPAN);
    assert!(setf_place_uses_multiple_values(&place));
    let lower = Form::list(vec![atom("values"), atom("a")], SPAN);
    assert!(!setf_place_uses_multiple_values(&lower));
    assert!(!setf_place_uses_multiple_values(&Form::list(vec![], SPAN)));
    assert!(!setf_place_uses_multiple_values(&atom("VALUES")));
}
