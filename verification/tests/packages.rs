use ncl_runtime::defpackage::DefpackageOperation;
use ncl_runtime::runtime::Runtime;
use ncl_runtime::syntax::{Form, FormKind, Span};
use ncl_runtime::value::Value;

const SPAN: Span = Span { start: 0, end: 1 };

fn atom(name: &str) -> Form {
    Form::atom(name, SPAN)
}

fn string(value: &str) -> Form {
    Form::new(FormKind::String(value.to_string()), SPAN)
}

fn valid<T, E>(result: Result<T, E>) -> T {
    result.unwrap_or_else(|_| panic!("expected a valid package or symbol value"))
}

#[test]
fn form_name_helpers_accept_strings_and_keywords() {
    let package_cases = [("foo", "FOO"), (":bar", "BAR"), ("Baz", "BAZ")];
    for (input, expected) in package_cases {
        assert_eq!(
            valid(Runtime::package_name_from_form(&atom(input))),
            expected
        );
    }
    assert_eq!(
        valid(Runtime::package_name_from_form(&string("tools"))),
        "TOOLS"
    );

    let symbol_cases = [("foo", "FOO"), (":bar", "BAR"), ("Baz", "BAZ")];
    for (input, expected) in symbol_cases {
        assert_eq!(
            valid(Runtime::symbol_name_from_form(&atom(input))),
            expected
        );
    }
    assert_eq!(
        valid(Runtime::symbol_name_from_form(&string("tools"))),
        "TOOLS"
    );
}

#[test]
fn form_name_helpers_reject_invalid_designators() {
    let invalid_forms = [
        Form::list(vec![atom("nested")], SPAN),
        atom("foo:bar"),
        atom(":"),
    ];
    for form in invalid_forms {
        assert!(Runtime::package_name_from_form(&form).is_err());
        assert!(Runtime::symbol_name_from_form(&form).is_err());
    }
}

#[test]
fn value_name_helpers_cover_designators_and_errors() {
    let span = SPAN;
    let package_cases = [
        (Value::Package("user".into()), "USER"),
        (Value::String("common-lisp".into()), "COMMON-LISP"),
        (Value::symbol("keyword"), "KEYWORD"),
    ];
    for (value, expected) in package_cases {
        assert_eq!(
            valid(Runtime::package_designator_name(&value, span)),
            expected
        );
    }
    assert!(Runtime::package_designator_name(&Value::Integer(1), span).is_err());
    assert!(Runtime::package_designator_name(&Value::symbol("foo:bar"), span).is_err());

    let symbol_cases = [
        (Value::String(":name".into()), "NAME"),
        (Value::symbol("name"), "NAME"),
        (Value::keyword("key"), "KEY"),
    ];
    for (value, expected) in symbol_cases {
        assert_eq!(
            valid(Runtime::symbol_name_from_value(&value, span)),
            expected
        );
        assert_eq!(
            valid(Runtime::name_designator_from_value(&value, span)),
            expected
        );
    }
    assert!(Runtime::symbol_name_from_value(&Value::Integer(1), span).is_err());
    assert!(Runtime::name_designator_from_value(&Value::String(":".into()), span).is_err());
}

#[test]
fn package_and_symbol_lists_are_table_driven() {
    let runtime = Runtime::new();
    let packages = Value::list(vec![
        Value::String("ncl-user".into()),
        Value::symbol("keyword"),
    ]);
    assert_eq!(
        valid(runtime.package_names_from_value(&packages, SPAN)),
        ["NCL-USER", "KEYWORD"]
    );

    let symbols = Value::list(vec![Value::symbol("one"), Value::keyword("two")]);
    assert_eq!(
        valid(Runtime::symbol_names_from_value(&symbols, SPAN)),
        ["ONE", "TWO"]
    );

    let invalid = Value::Integer(1);
    assert!(runtime.package_names_from_value(&invalid, SPAN).is_err());
    assert!(Runtime::symbol_names_from_value(&invalid, SPAN).is_err());
}

#[test]
fn import_references_resolve_keyword_qualified_and_current_symbols() {
    let runtime = Runtime::new();
    let references = Value::list(vec![
        Value::keyword("key"),
        Value::symbol("common-lisp:car"),
        Value::symbol("local"),
    ]);
    assert_eq!(
        valid(runtime.symbol_import_references_from_value(&references, SPAN)),
        [
            ("KEYWORD".into(), "KEY".into()),
            ("COMMON-LISP".into(), "CAR".into()),
            ("NCL-USER".into(), "LOCAL".into())
        ]
    );
    assert!(
        runtime
            .symbol_import_references_from_value(&Value::Integer(1), SPAN)
            .is_err()
    );
    assert!(
        runtime
            .symbol_import_references_from_value(
                &Value::list(vec![Value::UninternedSymbol("x".into())]),
                SPAN
            )
            .is_err()
    );
}

#[test]
fn defpackage_parser_accepts_all_options() {
    let options = vec![
        atom("TOOLS"),
        Form::list(vec![atom(":nicknames"), string("T")], SPAN),
        Form::list(vec![atom(":use"), atom("COMMON-LISP")], SPAN),
        Form::list(vec![atom(":documentation"), string("tool package")], SPAN),
        Form::list(vec![atom(":size"), atom("16")], SPAN),
        Form::list(
            vec![
                atom(":local-nicknames"),
                Form::list(vec![atom("CL"), atom("COMMON-LISP")], SPAN),
            ],
            SPAN,
        ),
        Form::list(vec![atom(":export"), atom("run")], SPAN),
        Form::list(vec![atom(":shadow"), atom("print")], SPAN),
        Form::list(vec![atom(":intern"), atom("state")], SPAN),
        Form::list(
            vec![atom(":import-from"), atom("COMMON-LISP"), atom("car")],
            SPAN,
        ),
        Form::list(
            vec![
                atom(":shadowing-import-from"),
                atom("COMMON-LISP"),
                atom("cdr"),
            ],
            SPAN,
        ),
    ];
    let spec = valid(Runtime::parse_defpackage(&options));

    assert_eq!(spec.name, "TOOLS");
    assert_eq!(spec.nicknames, ["T"]);
    assert_eq!(spec.use_packages, ["COMMON-LISP"]);
    assert_eq!(spec.documentation.as_deref(), Some("tool package"));
    assert!(spec.has_export("RUN"));
    assert_eq!(
        spec.local_nickname("COMMON-LISP"),
        Some(&"COMMON-LISP".to_string())
    );
    assert!(
        matches!(spec.operations[0], DefpackageOperation::Shadow(ref name) if name == "PRINT")
    );
    assert!(
        matches!(spec.operations[1], DefpackageOperation::Intern(ref name) if name == "STATE")
    );
    assert!(matches!(
        spec.operations[2],
        DefpackageOperation::Import {
            shadowing: false,
            ..
        }
    ));
    assert!(matches!(
        spec.operations[3],
        DefpackageOperation::Import {
            shadowing: true,
            ..
        }
    ));
}

#[test]
fn defpackage_parser_rejects_malformed_options() {
    let cases = [
        vec![atom("TOOLS"), atom("not-a-list")],
        vec![atom("TOOLS"), Form::list(vec![], SPAN)],
        vec![
            atom("TOOLS"),
            Form::list(vec![atom(":size"), atom("-1")], SPAN),
        ],
        vec![
            atom("TOOLS"),
            Form::list(vec![atom(":local-nicknames"), atom("CL")], SPAN),
        ],
        vec![atom("TOOLS"), Form::list(vec![atom(":import-from")], SPAN)],
        vec![atom("TOOLS"), Form::list(vec![atom(":unknown")], SPAN)],
        vec![Form::new(FormKind::String(String::new()), SPAN)],
    ];

    for items in cases {
        assert!(Runtime::parse_defpackage(&items).is_err());
    }
}
