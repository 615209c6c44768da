use ncl_runtime::conditions::RestartBinding;
use ncl_runtime::runtime::Runtime;
use ncl_runtime::syntax::Span;
use ncl_runtime::value::Value;

#[test]
fn global_environment_exposes_the_shared_global_scope() {
    let mut runtime = Runtime::new();
    let environment = runtime.global_environment();
    runtime.define_in("evaluator-tests-marker", Value::Integer(42), &environment);

    let looked_up = runtime
        .lookup_in("evaluator-tests-marker", &runtime.global_environment())
        .unwrap_or_else(|| {
            panic!("marker should be visible through a fresh handle to the global environment")
        });
    assert_eq!(looked_up.to_text(), "42");
}

#[test]
fn candidates_follow_packages_and_qualification() {
    let runtime = Runtime::new();
    assert_eq!(runtime.dynamic_candidates("foo"), vec!["FOO".to_string()]);
    assert_eq!(runtime.dynamic_candidates("#:foo"), vec!["#:FOO".to_string()]);
    assert_eq!(runtime.dynamic_candidates("cl:car"), vec!["COMMON-LISP::CAR".to_string()]);
}

#[test]
fn child_scopes_shadow_and_fall_back() {
    let mut runtime = Runtime::new();
    let global = runtime.global_environment();
    runtime.define_in("x", Value::Integer(1), &global);
    let inner = runtime.child_environment(&global);
    assert_eq!(runtime.lookup_in("x", &inner), Some(Value::Integer(1)));
    runtime.define_in("x", Value::Integer(2), &inner);
    assert_eq!(runtime.lookup_in("x", &inner), Some(Value::Integer(2)));
    assert_eq!(runtime.lookup_in("x", &global), Some(Value::Integer(1)));

    assert!(runtime.set_in("x", Value::Integer(3), &inner));
    assert_eq!(runtime.lookup_in("x", &inner), Some(Value::Integer(3)));
    assert_eq!(runtime.lookup_in("x", &global), Some(Value::Integer(1)));
    assert!(!runtime.set_in("y", Value::Integer(3), &inner));
    assert_eq!(runtime.lookup_in("y", &inner), None);
}

#[test]
fn special_variables_bind_dynamically_and_unwind() {
    let mut runtime = Runtime::new();
    let global = runtime.global_environment();
    assert_eq!(runtime.define_special_value("*depth*", Value::Integer(0), false), Value::Integer(0));
    assert_eq!(runtime.define_special_value("*depth*", Value::Integer(9), false), Value::Integer(0));
    assert_eq!(runtime.lookup_symbol_value_in("*depth*"), Some(Value::Integer(0)));

    let (depth, exact_depth) = runtime.dynamic_depth();
    runtime.define_in("*depth*", Value::Integer(1), &global);
    assert_eq!(runtime.lookup_in("*depth*", &global), Some(Value::Integer(1)));
    assert!(runtime.set_in("*depth*", Value::Integer(2), &global));
    assert_eq!(runtime.lookup_special("*depth*"), Some(Value::Integer(2)));
    runtime.unwind_dynamic(depth, exact_depth);
    assert_eq!(runtime.lookup_in("*depth*", &global), Some(Value::Integer(0)));

    assert_eq!(runtime.define_special_value("*depth*", Value::Integer(5), true), Value::Integer(5));
    assert_eq!(runtime.lookup_symbol_value_in("*depth*"), Some(Value::Integer(5)));
    runtime.makunbound_symbol("*depth*");
    assert_eq!(runtime.lookup_symbol_value_in("*depth*"), None);
    assert!(!runtime.is_symbol_value_bound("*depth*"));
}

#[test]
fn constants_refuse_assignment() {
    let mut runtime = Runtime::new();
    let global = runtime.global_environment();
    runtime.define_constant_value("limit", Value::Integer(10));
    assert!(runtime.is_constant_in("limit"));
    assert!(!runtime.set_in("limit", Value::Integer(11), &global));
    assert_eq!(runtime.lookup_in("limit", &global), Some(Value::Integer(10)));
    assert!(runtime.constantp(&Value::symbol("limit")));
    assert!(runtime.constantp(&Value::Symbol("t".to_string())));
    assert!(runtime.constantp(&Value::Integer(3)));
    assert!(!runtime.constantp(&Value::symbol("other")));
    assert!(!runtime.constantp(&Value::list(vec![Value::Integer(1)])));
    match Runtime::constant_modification_error("LIMIT", Span::new(0, 1)) {
        ncl_runtime::error::RuntimeError::InvalidForm { message, .. } => {
            assert_eq!(message, "cannot modify constant LIMIT")
        }
        other => panic!("unexpected {other:?}"),
    }

    runtime.define_constant_value_exact("Exact", Value::Integer(1));
    assert!(runtime.is_constant_exact_in("Exact"));
    assert!(!runtime.is_constant_exact_in("EXACT"));
    assert_eq!(runtime.lookup_special_exact("Exact"), Some(Value::Integer(1)));
}

#[test]
fn exact_bindings_shadow_exact_globals() {
    let mut runtime = Runtime::new();
    runtime.define_special_value_exact("v", Value::Integer(1), false);
    assert_eq!(runtime.lookup_symbol_value_exact("v"), Some(Value::Integer(1)));
    runtime.define_dynamic("v", true, Value::Integer(2));
    assert_eq!(runtime.lookup_symbol_value_exact("v"), Some(Value::Integer(2)));
    runtime.define_dynamic("v", true, Value::Unbound);
    assert_eq!(runtime.lookup_symbol_value_exact("v"), None);
    runtime.unwind_dynamic(0, 1);
    assert_eq!(runtime.lookup_symbol_value_exact("v"), Some(Value::Integer(2)));
    runtime.makunbound_exact_symbol("v");
    runtime.unwind_dynamic(0, 0);
    assert_eq!(runtime.lookup_symbol_value_exact("v"), None);
}

#[test]
fn restarts_are_established_and_unwound() {
    let mut runtime = Runtime::new();
    let depth = runtime.bind_restarts(vec![RestartBinding::new("retry".to_string(), None)]);
    assert_eq!(depth, 0);
    assert_eq!(runtime.restart_bindings().len(), 1);
    runtime.unwind_restarts(depth);
    assert!(runtime.restart_bindings().is_empty());
}
