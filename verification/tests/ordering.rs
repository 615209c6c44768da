use ncl_runtime::error::RuntimeError;
use ncl_runtime::runtime::Runtime;
use ncl_runtime::sequence_mapping::{
    list_map_values, map_columns, map_into_values, reduce_values, sequence_result_kind, shortest_length,
};
use ncl_runtime::sequence_options::SequenceKind;
use ncl_runtime::sequence_order::{insertion_sort, keys_of, merge_keyed};
use ncl_runtime::syntax::Span;
use ncl_runtime::value::Value;

const SPAN: Span = Span { start: 0, end: 1 };

fn ints(values: &[i64]) -> Vec<Value> {
    values.iter().map(|v| Value::Integer(*v)).collect()
}

fn number(value: &Value) -> i64 {
    match value {
        Value::Integer(n) => *n,
        _ => panic!("not an integer"),
    }
}

fn less(a: &Value, b: &Value) -> Result<bool, RuntimeError> {
    Ok(number(a) < number(b))
}

fn identity(value: &Value) -> Result<Value, RuntimeError> {
    Ok(value.clone())
}

fn negate(value: &Value) -> Result<Value, RuntimeError> {
    Ok(Value::Integer(-number(value)))
}

fn minus(a: &Value, b: &Value) -> Result<Value, RuntimeError> {
    Ok(Value::Integer(number(a) - number(b)))
}

#[test]
fn merge_takes_the_smaller_key_first_and_is_stable() {
    let a = ints(&[1, 3, 5]);
    let b = ints(&[2, 3, 6]);
    let keys_a = keys_of(&a, &identity).unwrap();
    let keys_b = keys_of(&b, &identity).unwrap();
    let merged = merge_keyed(&a, &keys_a, &b, &keys_b, less).unwrap();
    assert_eq!(merged, ints(&[1, 2, 3, 3, 5, 6]));
    let empty = merge_keyed(&vec![], &vec![], &b, &keys_b, less).unwrap();
    assert_eq!(empty, b);
}

#[test]
fn insertion_sort_orders_by_key_and_keeps_equal_elements_in_order() {
    assert_eq!(insertion_sort(&ints(&[3, 1, 2]), identity, less).unwrap(), ints(&[1, 2, 3]));
    assert_eq!(insertion_sort(&ints(&[3, 1, 2]), negate, less).unwrap(), ints(&[3, 2, 1]));
    assert_eq!(insertion_sort(&vec![], identity, less).unwrap(), vec![]);
    let pairs = vec![
        Value::list(ints(&[1, 0])),
        Value::list(ints(&[0, 1])),
        Value::list(ints(&[1, 2])),
    ];
    let first = |v: &Value| -> Result<Value, RuntimeError> {
        Ok(v.list_items().unwrap()[0].clone())
    };
    let sorted = insertion_sort(&pairs, first, less).unwrap();
    assert_eq!(sorted, vec![pairs[1].clone(), pairs[0].clone(), pairs[2].clone()]);
    assert!(Runtime::sequence_sort_operation("STABLE-SORT", SPAN).is_ok());
    assert!(Runtime::sequence_sort_operation("SHUFFLE", SPAN).is_err());
}

#[test]
fn reduce_folds_from_either_end() {
    let items = ints(&[10, 3, 2]);
    assert_eq!(reduce_values(&items, 0, 3, false, None, identity, minus, SPAN).unwrap(), Value::Integer(5));
    assert_eq!(reduce_values(&items, 0, 3, true, None, identity, minus, SPAN).unwrap(), Value::Integer(9));
    assert_eq!(
        reduce_values(&items, 1, 3, false, Some(Value::Integer(0)), identity, minus, SPAN).unwrap(),
        Value::Integer(-5)
    );
    assert_eq!(
        reduce_values(&items, 1, 1, false, Some(Value::Integer(7)), identity, minus, SPAN).unwrap(),
        Value::Integer(7)
    );
    assert!(matches!(
        reduce_values(&items, 1, 1, false, None, identity, minus, SPAN),
        Err(RuntimeError::InvalidForm { message, .. }) if message == "reduce of an empty sequence"
    ));
    // One element and no initial value: its key, the function never called.
    let never = |_: &Value, _: &Value| -> Result<Value, RuntimeError> { Err(RuntimeError::NumericOverflow) };
    let negate = |v: &Value| -> Result<Value, RuntimeError> {
        match v {
            Value::Integer(n) => Ok(Value::Integer(-n)),
            _ => Ok(v.clone()),
        }
    };
    assert_eq!(reduce_values(&items, 1, 2, false, None, negate, never, SPAN).unwrap(), Value::Integer(-3));
    // The key is not applied to the initial value.
    assert_eq!(
        reduce_values(&items, 1, 2, false, Some(Value::Integer(1)), negate, minus, SPAN).unwrap(),
        Value::Integer(4)
    );
}

#[test]
fn mapping_stops_at_the_shortest_sequence() {
    let sequences = vec![ints(&[1, 2, 3]), ints(&[10, 20])];
    let length = shortest_length(&sequences, usize::MAX);
    assert_eq!(length, 2);
    let add = |args: &Vec<Value>| -> Result<Value, RuntimeError> {
        Ok(Value::Integer(args.iter().map(number).sum()))
    };
    assert_eq!(map_columns(&sequences, length, add).unwrap(), ints(&[11, 22]));

    let into = map_into_values(SequenceKind::Vector, ints(&[0, 0, 0]), &sequences, add, SPAN).unwrap();
    assert_eq!(into, ints(&[11, 22, 0]));
    let into_string = map_into_values(
        SequenceKind::String,
        vec![Value::Character('a')],
        &sequences,
        add,
        SPAN,
    );
    assert!(matches!(into_string, Err(RuntimeError::Type { expected, .. }) if expected == "CHARACTER"));

    assert_eq!(sequence_result_kind(&Value::symbol("simple-base-string"), "map", SPAN).unwrap(), "STRING");
    assert!(sequence_result_kind(&Value::symbol("hash-table"), "map", SPAN).is_err());
}

#[test]
fn list_mappings_pass_elements_or_tails() {
    let lists = vec![ints(&[1, 2, 3])];
    let mapcar = Runtime::list_mapping_operation("MAPCAR", SPAN).unwrap();
    let double = |args: &Vec<Value>| -> Result<Value, RuntimeError> { Ok(Value::Integer(number(&args[0]) * 2)) };
    assert_eq!(list_map_values(&lists, &mapcar, double, "mapcar", SPAN).unwrap(), ints(&[2, 4, 6]));

    let maplist = Runtime::list_mapping_operation("MAPLIST", SPAN).unwrap();
    let length = |args: &Vec<Value>| -> Result<Value, RuntimeError> {
        Ok(Value::Integer(args[0].list_items().unwrap().len() as i64))
    };
    assert_eq!(list_map_values(&lists, &maplist, length, "maplist", SPAN).unwrap(), ints(&[3, 2, 1]));

    let mapcan = Runtime::list_mapping_operation("MAPCAN", SPAN).unwrap();
    let twice = |args: &Vec<Value>| -> Result<Value, RuntimeError> {
        Ok(Value::list(vec![args[0].clone(), args[0].clone()]))
    };
    assert_eq!(list_map_values(&lists, &mapcan, twice, "mapcan", SPAN).unwrap(), ints(&[1, 1, 2, 2, 3, 3]));
    assert!(list_map_values(&lists, &mapcan, double, "mapcan function results must be lists", SPAN).is_err());

    let mapc = Runtime::list_mapping_operation("MAPC", SPAN).unwrap();
    assert!(list_map_values(&lists, &mapc, double, "mapc", SPAN).unwrap().is_empty());
    assert!(Runtime::list_mapping_operation("MAPHASH", SPAN).is_err());

    match Runtime::mapping_lists("MAPCAR", &[Value::Integer(1)], SPAN) {
        Err(RuntimeError::InvalidForm { message, .. }) => assert_eq!(message, "mapcar arguments must be lists"),
        _ => panic!("expected an error"),
    }
    assert_eq!(
        Runtime::mapping_lists("MAPCAR", &[Value::Nil, Value::list(ints(&[1]))], SPAN).unwrap(),
        vec![vec![], ints(&[1])]
    );
}
