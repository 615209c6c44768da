use ncl_runtime::error::RuntimeError;
use ncl_runtime::package::PackageRegistry;
use ncl_runtime::runtime::Runtime;
use ncl_runtime::syntax::{Form, FormKind, Span};
use ncl_runtime::value::Value;

const SPAN: Span = Span { start: 0, end: 1 };

fn atom(name: &str) -> Form {
    Form::atom(name, SPAN)
}

fn string(value: &str) -> Form {
    Form::new(FormKind::String(value.to_string()), SPAN)
}

fn option(items: Vec<Form>) -> Form {
    Form::list(items, SPAN)
}

fn names(items: &[&str]) -> Vec<String> {
    items.iter().map(|s| s.to_string()).collect()
}

fn package_message(result: Result<Value, RuntimeError>) -> String {
    match result {
        Err(RuntimeError::Package { message, .. }) => message,
        other => panic!("expected a package error, got {other:?}"),
    }
}

fn record<'a>(registry: &'a PackageRegistry, name: &str) -> &'a ncl_runtime::package::PackageRecord {
    let index = registry.find(name).expect("package exists");
    &registry.packages[index]
}

#[test]
fn defpackage_defines_a_package_with_its_options_and_symbols() {
    let mut runtime = Runtime::new();
    let form = vec![
        atom("defpackage"),
        atom("tools"),
        option(vec![atom(":nicknames"), string("T")]),
        option(vec![atom(":export"), atom("run")]),
        option(vec![atom(":shadow"), atom("print")]),
        option(vec![atom(":intern"), atom("state")]),
        option(vec![atom(":import-from"), atom("ncl-user"), atom("helper")]),
    ];
    // The imported symbol must exist first.
    assert!(runtime.packages.intern_symbol("NCL-USER", "HELPER"));
    let value = runtime.special_defpackage(&form).expect("defpackage succeeds");
    assert_eq!(value, Value::Package("TOOLS".to_string()));

    let tools = record(&runtime.packages, "T");
    assert_eq!(tools.name, "TOOLS");
    assert_eq!(tools.nicknames, ["T"]);
    assert_eq!(tools.uses, ["COMMON-LISP"]);
    assert_eq!(tools.exports, ["RUN"]);
    assert_eq!(tools.symbols, ["RUN", "PRINT", "STATE", "HELPER"]);
    assert_eq!(tools.shadows, ["PRINT"]);
    assert_eq!(
        tools.imports,
        vec![("HELPER".to_string(), "NCL-USER".to_string())]
    );
    assert_eq!(runtime.packages.current_package(), "NCL-USER");
}

#[test]
fn defpackage_reports_unknown_packages_and_symbols() {
    let mut runtime = Runtime::new();
    let unknown_use = vec![
        atom("defpackage"),
        atom("tools"),
        option(vec![atom(":use"), atom("missing")]),
    ];
    assert_eq!(
        package_message(runtime.special_defpackage(&unknown_use)),
        "unknown package MISSING"
    );

    let unknown_source = vec![
        atom("defpackage"),
        atom("tools"),
        option(vec![atom(":import-from"), atom("nowhere"), atom("x")]),
    ];
    assert_eq!(
        package_message(runtime.special_defpackage(&unknown_source)),
        "unknown package NOWHERE"
    );

    let unknown_symbol = vec![
        atom("defpackage"),
        atom("tools"),
        option(vec![atom(":import-from"), atom("ncl-user"), atom("absent")]),
    ];
    assert_eq!(
        package_message(runtime.special_defpackage(&unknown_symbol)),
        "unknown symbol NCL-USER::ABSENT"
    );
    assert!(!runtime.packages.package_exists("TOOLS"));
}

#[test]
fn defpackage_refuses_a_nickname_of_another_package() {
    let mut runtime = Runtime::new();
    let first = vec![
        atom("defpackage"),
        atom("alpha"),
        option(vec![atom(":nicknames"), atom("a")]),
    ];
    runtime.special_defpackage(&first).expect("alpha is defined");
    let second = vec![
        atom("defpackage"),
        atom("beta"),
        option(vec![atom(":nicknames"), atom("a")]),
    ];
    assert_eq!(
        package_message(runtime.special_defpackage(&second)),
        "package name A is already in use"
    );
    assert!(!runtime.packages.package_exists("BETA"));
}

#[test]
fn defpackage_redefinition_keeps_symbols_and_takes_new_options() {
    let mut runtime = Runtime::new();
    let first = vec![
        atom("defpackage"),
        atom("alpha"),
        option(vec![atom(":nicknames"), atom("a")]),
        option(vec![atom(":intern"), atom("kept")]),
    ];
    runtime.special_defpackage(&first).expect("alpha is defined");
    let again = vec![
        atom("defpackage"),
        atom("a"),
        option(vec![atom(":nicknames"), atom("a"), atom("al")]),
        option(vec![atom(":export"), atom("kept"), atom("fresh")]),
    ];
    let value = runtime.special_defpackage(&again).expect("alpha is redefined");
    assert_eq!(value, Value::Package("ALPHA".to_string()));
    assert_eq!(runtime.packages.packages.len(), 4);
    let alpha = record(&runtime.packages, "AL");
    assert_eq!(alpha.name, "ALPHA");
    assert_eq!(alpha.nicknames, ["A", "AL"]);
    assert_eq!(alpha.exports, ["KEPT", "FRESH"]);
    assert_eq!(alpha.symbols, ["KEPT", "FRESH"]);
}

#[test]
fn defpackage_needs_a_name() {
    let mut runtime = Runtime::new();
    assert_eq!(
        runtime.special_defpackage(&[atom("defpackage")]),
        Err(RuntimeError::Arity {
            function: "defpackage".to_string(),
            expected: "at least one".to_string(),
            actual: 0,
        })
    );
}

#[test]
fn in_package_makes_the_designated_package_current() {
    let mut runtime = Runtime::new();
    let value = runtime
        .special_in_package(&[atom("in-package"), atom(":common-lisp")])
        .expect("COMMON-LISP exists");
    assert_eq!(value, Value::Package("COMMON-LISP".to_string()));
    assert_eq!(runtime.packages.current_package(), "COMMON-LISP");

    let form = vec![
        atom("defpackage"),
        atom("tools"),
        option(vec![atom(":nicknames"), atom("t")]),
    ];
    runtime.special_defpackage(&form).expect("tools is defined");
    let value = runtime
        .special_in_package(&[atom("in-package"), string("T")])
        .expect("T designates TOOLS");
    assert_eq!(value, Value::Package("TOOLS".to_string()));
    assert_eq!(runtime.packages.current_package(), "TOOLS");
}

#[test]
fn in_package_rejects_unknown_packages_and_wrong_arity() {
    let mut runtime = Runtime::new();
    assert_eq!(
        package_message(runtime.special_in_package(&[atom("in-package"), atom("nowhere")])),
        "unknown package NOWHERE"
    );
    assert_eq!(runtime.packages.current_package(), "NCL-USER");
    assert_eq!(
        runtime.special_in_package(&[atom("in-package"), atom("a"), atom("b")]),
        Err(RuntimeError::Arity {
            function: "in-package".to_string(),
            expected: "one".to_string(),
            actual: 2,
        })
    );
}

#[test]
fn registry_operations_shadow_intern_and_import() {
    let mut registry = PackageRegistry::new();
    assert!(registry
        .define_package(
            "TOOLS",
            names(&[]),
            names(&["COMMON-LISP"]),
            names(&[]),
            None,
            Vec::new()
        )
        .is_ok());
    assert!(registry.intern_symbol("TOOLS", "STATE"));
    assert!(!registry.intern_symbol("TOOLS", "STATE"));
    assert!(!registry.intern_symbol("MISSING", "STATE"));
    registry.shadow_symbol("TOOLS", "PRINT");
    registry.shadow_symbol("TOOLS", "PRINT");
    registry.import_symbol("TOOLS", "STATE", "NCL-USER", false);
    registry.import_symbol("NCL-USER", "STATE", "KEYWORD", true);
    let tools = record(&registry, "TOOLS");
    assert_eq!(tools.symbols, ["STATE", "PRINT"]);
    assert_eq!(tools.shadows, ["PRINT"]);
    let user = record(&registry, "NCL-USER");
    assert_eq!(
        user.imports,
        vec![("STATE".to_string(), "TOOLS".to_string())]
    );
    // The symbol keeps its home when it is imported again.
    let keyword = record(&registry, "KEYWORD");
    assert_eq!(
        keyword.imports,
        vec![("STATE".to_string(), "TOOLS".to_string())]
    );
    assert_eq!(keyword.shadows, ["STATE"]);
    assert_eq!(registry.canonical_name("T"), "T");
}
