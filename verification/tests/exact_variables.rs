use ncl_runtime::runtime::Runtime;
use ncl_runtime::value::Value;

#[test]
fn exact_variables_are_found_by_their_exact_name_only() {
    let mut runtime = Runtime::new();
    let global = runtime.global_environment();
    runtime.define_exact_in("x", Value::Integer(1), &global);
    assert_eq!(runtime.lookup_exact_in("x", &global), Some(Value::Integer(1)));
    assert_eq!(runtime.lookup_exact_in("X", &global), None);
    assert_eq!(runtime.lookup_in("x", &global), None);
    runtime.define_in("x", Value::Integer(2), &global);
    assert_eq!(runtime.lookup_exact_in("x", &global), Some(Value::Integer(1)));
    assert_eq!(runtime.lookup_in("x", &global), Some(Value::Integer(2)));
}

#[test]
fn exact_assignment_follows_scopes_then_dynamic_state() {
    let mut runtime = Runtime::new();
    let global = runtime.global_environment();
    runtime.define_exact_in("v", Value::Integer(1), &global);
    let inner = runtime.child_environment(&global);
    assert!(runtime.set_exact_in("v", Value::Integer(5), &inner));
    assert_eq!(runtime.lookup_exact_in("v", &global), Some(Value::Integer(5)));
    assert!(!runtime.set_exact_in("w", Value::Integer(5), &inner));

    runtime.define_special_value_exact("*s*", Value::Integer(0), false);
    assert!(runtime.is_symbol_value_bound_exact("*s*"));
    runtime.define_exact_in("*s*", Value::Integer(1), &inner);
    assert_eq!(runtime.lookup_exact_in("*s*", &global), Some(Value::Integer(1)));
    assert!(runtime.set_exact_in("*s*", Value::Integer(2), &global));
    assert_eq!(runtime.lookup_symbol_value_exact("*s*"), Some(Value::Integer(2)));

    runtime.define_constant_value_exact("+c+", Value::Integer(7));
    assert!(!runtime.set_exact_in("+c+", Value::Integer(8), &global));
    assert_eq!(runtime.lookup_exact_in("+c+", &global), Some(Value::Integer(7)));
    assert!(!runtime.is_symbol_value_bound_exact("nothing"));
}

#[test]
fn the_unbound_marker_reads_as_no_value() {
    let mut runtime = Runtime::new();
    let global = runtime.global_environment();
    runtime.define_exact_in("u", Value::Unbound, &global);
    assert_eq!(runtime.lookup_exact_in("u", &global), None);
}
