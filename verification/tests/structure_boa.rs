use ncl_runtime::error::RuntimeError;
use ncl_runtime::structure_boa::{structure_boa_slot_values, BoaInit, BoaParameter, BoaSlot};
use ncl_runtime::value::Value;

fn param(name: &str, supplied: Option<Value>, has_init: bool) -> BoaParameter {
    BoaParameter { name: name.to_string(), supplied, has_init }
}

fn slot(name: &str, has_init: bool) -> BoaSlot {
    BoaSlot { name: name.to_string(), has_init }
}

/// A parameter's init form answers ten times the number of values bound
/// before it; a slot's answers a hundred plus its index.
fn eval(init: &BoaInit, bound: &Vec<Value>) -> Result<Value, RuntimeError> {
    match init {
        BoaInit::Parameter(_) => Ok(Value::Integer(10 * bound.len() as i64)),
        BoaInit::Slot(j) => Ok(Value::Integer(100 + *j as i64)),
    }
}

#[test]
fn argument_else_own_init_else_slot_init_else_nil() {
    let params = vec![
        param("A", Some(Value::Integer(1)), true),
        param("B", None, true),
        param("C", None, false),
    ];
    let slots = vec![slot("A", true), slot("B", false), slot("C", true), slot("D", false), slot("E", true)];
    let values = structure_boa_slot_values(&params, &slots, eval).unwrap();
    assert_eq!(
        values,
        vec![Value::Integer(1), Value::Integer(10), Value::Integer(102), Value::Nil, Value::Integer(104)]
    );
}

#[test]
fn the_last_parameter_of_a_slot_wins() {
    let params = vec![param("A", Some(Value::Integer(1)), false), param("A", Some(Value::Integer(2)), false)];
    let slots = vec![slot("A", true)];
    assert_eq!(structure_boa_slot_values(&params, &slots, eval).unwrap(), vec![Value::Integer(2)]);
}

#[test]
fn a_failing_init_form_ends_the_construction() {
    let failing = |init: &BoaInit, _: &Vec<Value>| -> Result<Value, RuntimeError> {
        match init {
            BoaInit::Slot(_) => Err(RuntimeError::NumericOverflow),
            BoaInit::Parameter(_) => Ok(Value::Nil),
        }
    };
    let params = vec![param("A", None, false)];
    let slots = vec![slot("A", true)];
    assert_eq!(structure_boa_slot_values(&params, &slots, failing), Err(RuntimeError::NumericOverflow));
    let params = vec![param("A", Some(Value::Integer(3)), false)];
    assert_eq!(structure_boa_slot_values(&params, &slots, failing).unwrap(), vec![Value::Integer(3)]);
}
