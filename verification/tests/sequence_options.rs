use ncl_runtime::error::RuntimeError;
use ncl_runtime::sequence_options::{
    merge_result_kind, parse_association_search_options, parse_list_membership_options,
    parse_list_set_options, parse_sequence_index, parse_sequence_merge_key,
    parse_sequence_pair_search_options, parse_sequence_reduce_options,
    parse_sequence_remove_options, parse_sequence_search_options, parse_sequence_sort_key,
    parse_sequence_substitute_options, reduce_initial_value, sequence_items,
    sequence_merge_result, sequence_substitute_optional_index,
};
use ncl_runtime::syntax::Span;
use ncl_runtime::value::Value;

const SPAN: Span = Span { start: 0, end: 1 };

#[test]
fn sequence_option_parsers_accept_supported_keyword_shapes() {
    type Parser = fn(&[Value], Span) -> Result<(), RuntimeError>;
    let cases: &[(Parser, &[Value])] = &[
        (
            |options, span| parse_sequence_search_options(options, span).map(|_| ()),
            &[Value::keyword("from-end"), Value::boolean(true)],
        ),
        (
            |options, span| parse_sequence_reduce_options(options, span).map(|_| ()),
            &[
                Value::keyword("start"),
                Value::Integer(1),
                Value::keyword("end"),
                Value::Integer(2),
            ],
        ),
        (
            |options, span| parse_sequence_sort_key(options, span).map(|_| ()),
            &[Value::keyword("key"), Value::Nil],
        ),
        (
            |options, span| parse_sequence_merge_key(options, span).map(|_| ()),
            &[Value::keyword("key"), Value::Nil],
        ),
    ];

    for (parser, options) in cases {
        assert!(parser(options, SPAN).is_ok());
    }
}

#[test]
fn sequence_option_parsers_reject_malformed_and_conflicting_options() {
    let cases: &[&[Value]] = &[
        &[Value::keyword("start")],
        &[Value::Integer(0), Value::Nil],
        &[
            Value::keyword("test"),
            Value::Nil,
            Value::keyword("test-not"),
            Value::Nil,
        ],
        &[Value::keyword("start"), Value::Integer(-1)],
        &[Value::keyword("unknown"), Value::Nil],
    ];

    for options in cases {
        assert!(parse_sequence_search_options(options, SPAN).is_err());
    }
    assert!(parse_sequence_reduce_options(cases[0], SPAN).is_err());
    assert!(parse_sequence_sort_key(cases[4], SPAN).is_err());
}

#[test]
fn sequence_index_and_reduce_helpers_cover_empty_and_invalid_inputs() {
    assert_eq!(
        parse_sequence_index(":start", &Value::Integer(3), SPAN),
        Ok(3)
    );
    assert!(parse_sequence_index(":start", &Value::Integer(-1), SPAN).is_err());
    assert!(parse_sequence_index(":start", &Value::Nil, SPAN).is_err());
    assert_eq!(
        sequence_substitute_optional_index(":end", &Value::Nil, SPAN),
        Ok(None)
    );
    assert!(reduce_initial_value(None, None, &|value: &Value| Ok(value.clone()), SPAN).is_err());
    assert_eq!(
        reduce_initial_value(
            Some(Value::Integer(4)),
            None,
            &|value: &Value| Ok(value.clone()),
            SPAN
        )
        .map(|value| value.to_text()),
        Ok("4".to_string())
    );
}

#[test]
fn sequence_option_parsers_cover_operation_specific_keywords() {
    let cases: &[(&str, Result<(), RuntimeError>)] = &[
        (
            "membership",
            parse_list_membership_options(
                &[
                    Value::keyword("key"),
                    Value::Nil,
                    Value::keyword("test"),
                    Value::Nil,
                ],
                false,
                SPAN,
            )
            .map(|_| ()),
        ),
        (
            "association",
            parse_association_search_options(
                &[Value::keyword("test-not"), Value::Nil],
                false,
                SPAN,
            )
            .map(|_| ()),
        ),
        (
            "substitute",
            parse_sequence_substitute_options(
                &[
                    Value::keyword("from-end"),
                    Value::boolean(true),
                    Value::keyword("start"),
                    Value::Integer(1),
                    Value::keyword("end"),
                    Value::Nil,
                    Value::keyword("count"),
                    Value::Integer(2),
                ],
                false,
                SPAN,
            )
            .map(|_| ()),
        ),
        (
            "pair search",
            parse_sequence_pair_search_options(
                &[
                    Value::keyword("start1"),
                    Value::Integer(0),
                    Value::keyword("end1"),
                    Value::Nil,
                    Value::keyword("start2"),
                    Value::Integer(1),
                    Value::keyword("end2"),
                    Value::Integer(2),
                ],
                SPAN,
            )
            .map(|_| ()),
        ),
        (
            "list set",
            parse_list_set_options(
                &[Value::keyword("test-not"), Value::Nil, Value::keyword("key"), Value::Nil],
                SPAN,
            )
            .map(|_| ()),
        ),
        (
            "removal",
            parse_sequence_remove_options(
                &[
                    Value::keyword("from-end"),
                    Value::boolean(true),
                    Value::keyword("end"),
                    Value::Nil,
                    Value::keyword("count"),
                    Value::Nil,
                ],
                false,
                false,
                SPAN,
            )
            .map(|_| ()),
        ),
    ];

    for (name, result) in cases {
        assert!(result.is_ok(), "{name}: {result:?}");
    }
}

#[test]
fn sequence_result_helpers_cover_supported_kinds_and_type_errors() {
    let characters = vec![Value::Character('a'), Value::Character('b')];
    let cases = [
        ("NIL", sequence_merge_result("NIL", characters.clone(), SPAN)),
        ("LIST", sequence_merge_result("LIST", characters.clone(), SPAN)),
        (
            "VECTOR",
            sequence_merge_result("VECTOR", characters.clone(), SPAN),
        ),
        ("STRING", sequence_merge_result("STRING", characters, SPAN)),
    ];
    for (kind, result) in cases {
        assert!(result.is_ok(), "{kind}: {result:?}");
    }
    assert!(sequence_merge_result("STRING", vec![Value::Nil], SPAN).is_err());
    assert_eq!(merge_result_kind(&Value::symbol("simple-vector"), SPAN), Ok("VECTOR"));
    assert!(merge_result_kind(&Value::Integer(1), SPAN).is_err());
    assert!(sequence_items(&Value::Nil, SPAN).is_ok_and(|items| items.is_empty()));
    assert!(sequence_items(&Value::Integer(1), SPAN).is_err());
}
