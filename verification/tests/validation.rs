use ncl_runtime::runtime::Runtime;
use ncl_runtime::syntax::{Form, Span};

fn atom(name: &str) -> Form {
    Form::atom(name, Span::new(2, 2 + name.len()))
}

#[test]
fn validates_name_categories_from_table_cases() {
    let valid = ["name", ":keyword", "nil", "t", "|literal|", "foo\\ bar"];
    for name in valid {
        assert!(Runtime::block_name(&atom(name)).is_ok(), "block: {name}");
        assert!(
            Runtime::restart_name(&atom(name)).is_ok(),
            "restart: {name}"
        );
    }

    let invalid = ["", ":", "1", "(list)"];
    for name in invalid {
        let form = if name == "(list)" {
            Form::list(vec![atom("list")], Span::new(0, 6))
        } else {
            atom(name)
        };
        assert!(Runtime::block_name(&form).is_err(), "block: {name}");
        assert!(Runtime::restart_name(&form).is_err(), "restart: {name}");
    }

    for name in ["condition", ":condition", "nil", "t"] {
        assert!(
            Runtime::condition_name(&atom(name)).is_ok(),
            "condition: {name}"
        );
    }
    for name in ["", ":", "1"] {
        assert!(
            Runtime::condition_name(&atom(name)).is_err(),
            "condition: {name}"
        );
    }
}

#[test]
fn validates_variable_names_and_preserves_escaping() {
    let cases = [
        ("name", "NAME", false),
        ("|Name|", "Name", true),
        ("foo\\ bar", "FOO BAR", true),
    ];
    for (source, expected, escaped) in cases {
        assert_eq!(
            Runtime::variable_name_info(&atom(source), "variable"),
            Ok((expected.into(), escaped))
        );
    }
    for source in ["", "&optional", "1", ":keyword"] {
        assert!(
            Runtime::variable_name(&atom(source), "variable").is_err(),
            "variable: {source}"
        );
    }
    let non_atom = Form::list(Vec::new(), Span::new(0, 2));
    assert!(Runtime::variable_name(&non_atom, "variable").is_err());
}
