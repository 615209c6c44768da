use ncl_runtime::error::RuntimeError;
use ncl_runtime::runtime::Runtime;
use ncl_runtime::value::Value;
use ncl_runtime::literals::{escaped_symbol_atom, literal_atom, quoted_form_value, resolved_symbol};
use ncl_runtime::syntax::{Form, FormKind, Span};

#[test]
fn quoted_values_cover_composite_and_escaped_literals() {
    let span = Span::new(0, 1);
    let cases = [
        (Form::atom("|name|", span), "|name|"),
        (Form::atom(":|key|", span), ":|key|"),
        (Form::atom("#:|temporary|", span), "#:temporary"),
        (Form::atom("pkg:|name|", span), "|PKG::name|"),
        (Form::new(FormKind::String("text".into()), span), "\"text\""),
        (Form::new(FormKind::Character('x'), span), "#\\x"),
        (Form::list(vec![Form::atom("1", span)], span), "(1)"),
        (
            Form::dotted_list(vec![Form::atom("1", span)], Form::atom("2", span), span),
            "(1 . 2)",
        ),
        (
            Form::new(FormKind::Vector(vec![Form::atom("1", span)]), span),
            "#(1)",
        ),
    ];

    for (form, expected) in cases {
        let value = match quoted_form_value(&form) {
            Ok(value) => value,
            Err(error) => panic!("literal form failed: {error:?}"),
        };
        assert_eq!(value.to_text(), expected);
    }
}

#[test]
fn literal_atoms_cover_language_boundaries() {
    let cases = [
        ("nil", "NIL"),
        ("#f", "NIL"),
        ("t", "T"),
        ("#t", "T"),
        ("42", "42"),
        ("3/6", "1/2"),
        ("1.5", "1.5"),
        (":name", ":NAME"),
    ];

    for (source, expected) in cases {
        let actual =
            literal_atom(source).map_or_else(|| "<none>".to_owned(), |value| value.to_text());
        assert_eq!(actual, expected, "{source}");
    }

    for source in ["(not-an-atom)", "|escaped|"] {
        assert!(literal_atom(source).is_none(), "{source}");
    }
}

#[test]
fn resolved_symbols_preserve_package_and_escape_identity() {
    let cases = [
        ("name", ("NAME", false)),
        ("|name|", ("name", true)),
        (":key", (":KEY", false)),
        ("#:temporary", ("#:TEMPORARY", false)),
        ("pkg:name", ("PKG::NAME", false)),
    ];

    for (source, expected) in cases {
        assert_eq!(
            resolved_symbol(source),
            (expected.0.to_owned(), expected.1),
            "{source}"
        );
    }
}

#[test]
fn escaped_symbol_atoms_quote_delimiters() {
    assert_eq!(escaped_symbol_atom("a|b\\c"), "|a\\|b\\\\c|");
}

#[test]
fn quote_returns_the_quoted_value_of_its_one_argument() {
    let span = Span::new(0, 1);
    let form = [Form::atom("quote", span), Form::atom("7", span)];
    assert_eq!(Runtime::special_quote(&form), Ok(Value::Integer(7)));
    let listed = [
        Form::atom("quote", span),
        Form::list(vec![Form::atom("a", span)], span),
    ];
    assert_eq!(
        Runtime::special_quote(&listed),
        Ok(Value::list(vec![Value::Symbol("A".to_string())]))
    );
    assert_eq!(
        Runtime::special_quote(&[Form::atom("quote", span)]),
        Err(RuntimeError::Arity {
            function: "quote".to_string(),
            expected: "one".to_string(),
            actual: 0,
        })
    );
}

#[test]
fn an_escaped_symbol_reads_back_as_itself() {
    for name in ["a|b\\c", "Mixed Case", "pkg:sym", ":key", "", "#:x", "12"] {
        let atom = escaped_symbol_atom(name);
        assert_eq!(resolved_symbol(&atom), (name.to_string(), true));
    }
}
