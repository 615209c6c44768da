use ncl_runtime::place_dispatch::{place_kind, place_route, AccessorKind, PlaceKind, PlaceRoute};
use ncl_runtime::error::RuntimeError;
use ncl_runtime::runtime::Runtime;
use ncl_runtime::setf::{ArrayValue, 
    setf_car_value, setf_cdr_value, setf_char_value, setf_elt_value, setf_nth_value, setf_property_value,
    setf_subseq_value, setf_vector_value,
};
use ncl_runtime::syntax::Span;
use ncl_runtime::value::Value;

const SPAN: Span = Span { start: 0, end: 1 };

fn ints(values: &[i64]) -> Vec<Value> {
    values.iter().map(|v| Value::Integer(*v)).collect()
}

fn invalid_message(result: Result<Value, RuntimeError>) -> String {
    match result {
        Err(RuntimeError::InvalidForm { message, .. }) => message,
        other => panic!("expected an invalid-form error, got {other:?}"),
    }
}

fn type_expected(result: Result<Value, RuntimeError>) -> String {
    match result {
        Err(RuntimeError::Type { expected, .. }) => expected,
        other => panic!("expected a type error, got {other:?}"),
    }
}

#[test]
fn modify_macro_container_index_finds_the_place_argument() {
    let cases = [
        ("car", 1, Some(0)),
        ("pkg:nth", 2, Some(1)),
        ("ELT", 1, Some(0)),
        ("nth", 1, None),
        ("unknown", 3, None),
    ];

    for (operator, argument_count, expected) in cases {
        assert_eq!(
            Runtime::modify_macro_container_index(operator, argument_count),
            expected,
            "operator={operator}, argument_count={argument_count}"
        );
    }

    for operator in [
        "first",
        "cdr",
        "rest",
        "getf",
        "char",
        "schar",
        "bit",
        "aref",
        "row-major-aref",
        "svref",
        "subseq",
    ] {
        assert_eq!(
            Runtime::modify_macro_container_index(operator, 1),
            Some(0),
            "operator={operator}"
        );
    }
}

#[test]
fn setf_index_accepts_non_negative_integers_only() {
    let runtime = Runtime::new();
    let span = Span::new(0, 1);

    assert_eq!(runtime.setf_index(Value::Integer(3), span).unwrap(), 3);
    assert!(runtime.setf_index(Value::Integer(-1), span).is_err());
    assert!(runtime.setf_index(Value::Nil, span).is_err());
}

#[test]
fn setf_index_reports_each_failure() {
    let runtime = Runtime::new();
    match runtime.setf_index(Value::Integer(-1), SPAN) {
        Err(RuntimeError::InvalidForm { message, .. }) => {
            assert_eq!(message, "SETF index must be non-negative")
        }
        other => panic!("unexpected {other:?}"),
    }
    match runtime.setf_index(Value::string("x"), SPAN) {
        Err(RuntimeError::Type { expected, actual, .. }) => {
            assert_eq!(expected, "INTEGER");
            assert_eq!(actual, "STRING");
        }
        other => panic!("unexpected {other:?}"),
    }
    assert_eq!(runtime.setf_index(Value::Integer(0), SPAN).unwrap(), 0);
}

#[test]
fn car_and_cdr_places_rebuild_the_list() {
    let list = Value::list(ints(&[1, 2, 3]));
    assert_eq!(
        setf_car_value(&list, Value::Integer(9), SPAN).unwrap(),
        Value::list(ints(&[9, 2, 3]))
    );
    assert_eq!(invalid_message(setf_car_value(&Value::Nil, Value::Integer(9), SPAN)), "cannot SETF CAR of NIL");
    assert_eq!(type_expected(setf_car_value(&Value::Integer(1), Value::Nil, SPAN)), "LIST");

    let tail = Value::list(ints(&[7, 8]));
    assert_eq!(
        setf_cdr_value(&list, &tail, SPAN, SPAN).unwrap(),
        Value::list(ints(&[1, 7, 8]))
    );
    assert_eq!(setf_cdr_value(&list, &Value::Nil, SPAN, SPAN).unwrap(), Value::list(ints(&[1])));
    assert_eq!(invalid_message(setf_cdr_value(&Value::Nil, &tail, SPAN, SPAN)), "cannot SETF CDR of NIL");
    assert_eq!(type_expected(setf_cdr_value(&list, &Value::Integer(4), SPAN, SPAN)), "LIST");
}

#[test]
fn indexed_places_replace_one_element() {
    let list = Value::list(ints(&[1, 2, 3]));
    assert_eq!(
        setf_nth_value(1, &list, Value::Integer(5), SPAN, SPAN).unwrap(),
        Value::list(ints(&[1, 5, 3]))
    );
    assert_eq!(
        invalid_message(setf_nth_value(3, &list, Value::Integer(5), SPAN, SPAN)),
        "SETF index is out of bounds"
    );

    let vector = Value::vector(ints(&[1, 2]));
    assert_eq!(
        setf_elt_value(&vector, 0, Value::Integer(4), SPAN, SPAN, SPAN).unwrap(),
        Value::vector(ints(&[4, 2]))
    );
    assert_eq!(
        setf_elt_value(&Value::string("abc"), 1, Value::Character('X'), SPAN, SPAN, SPAN).unwrap(),
        Value::string("aXc")
    );
    assert_eq!(
        type_expected(setf_elt_value(&Value::string("abc"), 1, Value::Integer(1), SPAN, SPAN, SPAN)),
        "CHARACTER"
    );
    assert_eq!(
        invalid_message(setf_elt_value(&Value::Nil, 0, Value::Integer(1), SPAN, SPAN, SPAN)),
        "SETF index is out of bounds"
    );
    assert_eq!(
        type_expected(setf_elt_value(&Value::Integer(1), 0, Value::Integer(1), SPAN, SPAN, SPAN)),
        "SEQUENCE"
    );

    assert_eq!(
        setf_char_value(&Value::string("dog"), 0, Value::Character('f'), SPAN, SPAN, SPAN).unwrap(),
        Value::string("fog")
    );
    assert_eq!(
        type_expected(setf_char_value(&vector, 0, Value::Character('f'), SPAN, SPAN, SPAN)),
        "STRING"
    );
    assert_eq!(
        setf_vector_value(&vector, 1, Value::Nil, "SIMPLE-VECTOR", SPAN, SPAN).unwrap(),
        Value::vector(vec![Value::Integer(1), Value::Nil])
    );
    assert_eq!(
        type_expected(setf_vector_value(&list, 1, Value::Nil, "SIMPLE-VECTOR", SPAN, SPAN)),
        "SIMPLE-VECTOR"
    );
}

#[test]
fn subseq_place_copies_as_much_as_fits() {
    let list = Value::list(ints(&[1, 2, 3, 4]));
    let replacement = Value::vector(ints(&[8, 9, 10]));
    assert_eq!(
        setf_subseq_value(&list, 1, Some(3), &replacement, SPAN, SPAN).unwrap(),
        Value::list(ints(&[1, 8, 9, 4]))
    );
    assert_eq!(
        setf_subseq_value(&list, 2, None, &Value::list(ints(&[7])), SPAN, SPAN).unwrap(),
        Value::list(ints(&[1, 2, 7, 4]))
    );
    assert_eq!(
        setf_subseq_value(&Value::string("hello"), 0, None, &Value::string("J"), SPAN, SPAN).unwrap(),
        Value::string("Jello")
    );
    assert_eq!(
        type_expected(setf_subseq_value(&Value::string("hello"), 0, None, &list, SPAN, SPAN)),
        "CHARACTER"
    );
    assert_eq!(
        invalid_message(setf_subseq_value(&list, 3, Some(2), &replacement, SPAN, SPAN)),
        "SETF SUBSEQ bounds are invalid"
    );
    assert_eq!(
        invalid_message(setf_subseq_value(&list, 0, Some(5), &replacement, SPAN, SPAN)),
        "SETF SUBSEQ bounds are invalid"
    );
    assert_eq!(type_expected(setf_subseq_value(&list, 0, None, &Value::Integer(1), SPAN, SPAN)), "SEQUENCE");
    assert_eq!(type_expected(setf_subseq_value(&Value::Integer(3), 0, None, &list, SPAN, SPAN)), "SEQUENCE");
}

#[test]
fn property_places_replace_or_append_entries() {
    let key = Value::keyword("a");
    let other = Value::keyword("b");
    let plist = Value::list(vec![key.clone(), Value::Integer(1)]);

    let replaced = setf_property_value(&plist, key.clone(), Value::Integer(2), SPAN, "odd").unwrap();
    assert_eq!(replaced, Value::list(vec![key.clone(), Value::Integer(2)]));

    let extended = setf_property_value(&plist, other.clone(), Value::Integer(3), SPAN, "odd").unwrap();
    assert_eq!(
        extended,
        Value::list(vec![key.clone(), Value::Integer(1), other.clone(), Value::Integer(3)])
    );

    let fresh = setf_property_value(&Value::Nil, key.clone(), Value::Integer(4), SPAN, "odd").unwrap();
    assert_eq!(fresh, Value::list(vec![key.clone(), Value::Integer(4)]));

    let odd = Value::list(vec![key.clone()]);
    assert_eq!(
        invalid_message(setf_property_value(&odd, key.clone(), Value::Nil, SPAN, "GETF needs an even property list")),
        "GETF needs an even property list"
    );
    assert_eq!(type_expected(setf_property_value(&Value::Integer(1), key, Value::Nil, SPAN, "odd")), "LIST");
}

#[test]
fn array_offsets_are_row_major_and_checked() {
    let runtime = Runtime::new();
    let dimensions = vec![2_usize, 3];
    let spans = vec![SPAN, SPAN];
    assert_eq!(
        runtime.array_element_offset(&dimensions, &ints(&[1, 2]), &spans, SPAN).unwrap(),
        5
    );
    assert_eq!(
        runtime.array_element_offset(&dimensions, &ints(&[0, 0]), &spans, SPAN).unwrap(),
        0
    );
    match runtime.array_element_offset(&dimensions, &ints(&[2, 0]), &spans, SPAN) {
        Err(RuntimeError::InvalidForm { message, .. }) => assert_eq!(message, "SETF index is out of bounds"),
        other => panic!("unexpected {other:?}"),
    }
    let huge = vec![3_usize, usize::MAX];
    match runtime.array_element_offset(&huge, &ints(&[2, 0]), &spans, SPAN) {
        Err(RuntimeError::InvalidForm { message, .. }) => assert_eq!(message, "SETF index is too large"),
        other => panic!("unexpected {other:?}"),
    }
    assert!(runtime.array_element_offset(&dimensions, &vec![Value::Nil, Value::Integer(0)], &spans, SPAN).is_err());
}

#[test]
fn place_kind_dispatches_on_the_unqualified_operator() {
    let span = ncl_runtime::syntax::Span { start: 0, end: 1 };
    assert_eq!(place_kind("car", 1, span).unwrap(), PlaceKind::Car);
    assert_eq!(place_kind("CL:FIRST", 1, span).unwrap(), PlaceKind::Car);
    assert_eq!(place_kind("rest", 1, span).unwrap(), PlaceKind::Cdr);
    assert_eq!(place_kind("schar", 2, span).unwrap(), PlaceKind::Char);
    assert_eq!(place_kind("subseq", 3, span).unwrap(), PlaceKind::Subseq);
    assert_eq!(place_kind("aref", 4, span).unwrap(), PlaceKind::Aref);
    assert_eq!(place_kind("gethash", 2, span).unwrap(), PlaceKind::Gethash);
    assert!(matches!(
        place_kind("frob", 1, span),
        Err(ncl_runtime::error::RuntimeError::InvalidForm { message, .. }) if message == "unsupported SETF place"
    ));
    assert!(matches!(
        place_kind("nth", 1, span),
        Err(ncl_runtime::error::RuntimeError::Arity { function, expected, actual })
            if function == "setf nth" && expected == "two" && actual == 1
    ));
    assert!(matches!(
        place_kind("subseq", 4, span),
        Err(ncl_runtime::error::RuntimeError::Arity { expected, actual, .. }) if expected == "two or three" && actual == 4
    ));
    assert!(matches!(
        place_kind("bit", 0, span),
        Err(ncl_runtime::error::RuntimeError::Arity { function, expected, actual })
            if function == "setf bit" && expected == "array and subscripts" && actual == 0
    ));
    assert!(matches!(
        place_kind("aref", 0, span),
        Err(ncl_runtime::error::RuntimeError::Arity { expected, .. }) if expected == "at least one"
    ));
}

#[test]
fn setf_aref_replaces_the_row_major_element() {
    let runtime = Runtime::new();
    let array = ArrayValue { dimensions: vec![2, 3], storage: ints(&[0, 1, 2, 3, 4, 5]) };
    let spans = vec![SPAN, SPAN];
    let updated = runtime.setf_array_element(&array, &ints(&[1, 2]), &spans, Value::Integer(9), SPAN).unwrap();
    assert_eq!(updated.dimensions, vec![2, 3]);
    assert_eq!(updated.storage, ints(&[0, 1, 2, 3, 4, 9]));
    let updated = runtime.setf_array_element(&array, &ints(&[0, 1]), &spans, Value::Integer(7), SPAN).unwrap();
    assert_eq!(updated.storage, ints(&[0, 7, 2, 3, 4, 5]));
    assert!(matches!(
        runtime.setf_array_element(&array, &ints(&[1]), &vec![SPAN], Value::Nil, SPAN),
        Err(RuntimeError::Arity { function, expected, actual }) if function == "setf aref" && expected == "2 indices" && actual == 1
    ));
    assert!(matches!(
        runtime.setf_array_element(&array, &ints(&[2, 0]), &spans, Value::Nil, SPAN),
        Err(RuntimeError::InvalidForm { message, .. }) if message == "SETF index is out of bounds"
    ));
    let short = ArrayValue { dimensions: vec![2, 3], storage: ints(&[0, 1]) };
    assert!(matches!(
        runtime.setf_array_element(&short, &ints(&[1, 0]), &spans, Value::Nil, SPAN),
        Err(RuntimeError::InvalidForm { message, .. }) if message == "SETF index is out of bounds"
    ));
}

#[test]
fn place_route_tries_the_candidates_in_order() {
    let other = AccessorKind::Other;
    assert_eq!(place_route(true, true, None, 0, false, other, false, SPAN).unwrap(), PlaceRoute::SymbolMacro);
    assert_eq!(place_route(false, true, None, 0, false, other, false, SPAN).unwrap(), PlaceRoute::Variable);
    assert!(matches!(
        place_route(false, false, None, 1, false, other, false, SPAN),
        Err(RuntimeError::InvalidForm { message, .. }) if message == "unsupported SETF place"
    ));
    assert_eq!(
        place_route(false, false, Some("car"), 1, true, AccessorKind::SlotReader, true, SPAN).unwrap(),
        PlaceRoute::Expander
    );
    assert_eq!(
        place_route(false, false, Some("point-x"), 1, false, AccessorKind::SlotReader, true, SPAN).unwrap(),
        PlaceRoute::SlotAccessor
    );
    assert!(matches!(
        place_route(false, false, Some("point-x"), 2, false, AccessorKind::SlotReader, false, SPAN),
        Err(RuntimeError::Arity { function, .. }) if function == "setf slot accessor"
    ));
    assert!(matches!(
        place_route(false, false, Some("p-x"), 1, false, AccessorKind::StructureAccessor { read_only: true }, false, SPAN),
        Err(RuntimeError::InvalidForm { message, .. }) if message == "cannot SETF a read-only structure slot"
    ));
    assert_eq!(
        place_route(false, false, Some("p-x"), 1, false, AccessorKind::StructureAccessor { read_only: false }, false, SPAN)
            .unwrap(),
        PlaceRoute::StructureAccessor
    );
    assert_eq!(place_route(false, false, Some("car"), 1, false, other, true, SPAN).unwrap(), PlaceRoute::SetfFunction);
    assert_eq!(
        place_route(false, false, Some("car"), 1, false, other, false, SPAN).unwrap(),
        PlaceRoute::Builtin(PlaceKind::Car)
    );
    assert!(matches!(
        place_route(false, false, Some("frob"), 1, false, other, false, SPAN),
        Err(RuntimeError::InvalidForm { message, .. }) if message == "unsupported SETF place"
    ));
}
