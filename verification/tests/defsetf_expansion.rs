use ncl_runtime::defsetf_expansion::{long_defsetf_expansion, AccessItem};

#[test]
fn keyword_values_follow_the_lambda_list_order() {
    // (acc a b :x 1 :y 2) with (r &optional o &key y z x): y, then x.
    let e = long_defsetf_expansion(6, 2, false, true, &vec![Some(5), None, Some(3)], 7);
    assert_eq!(e.values, vec![0, 1, 5, 3]);
    assert_eq!(
        e.access,
        vec![
            AccessItem::Operator,
            AccessItem::Temporary(0),
            AccessItem::Temporary(1),
            AccessItem::Argument(4),
            AccessItem::Temporary(2),
            AccessItem::Argument(2),
            AccessItem::Temporary(3),
        ]
    );
    assert_eq!(e.temporaries, vec!["NCL-SETF-TEMP-7", "NCL-SETF-TEMP-8", "NCL-SETF-TEMP-9", "NCL-SETF-TEMP-10"]);
    assert_eq!(e.store, "NCL-SETF-TEMP-11");
}

#[test]
fn a_rest_list_binds_the_keyword_values_in_argument_order() {
    let e = long_defsetf_expansion(6, 2, true, true, &vec![Some(5), Some(3)], 0);
    assert_eq!(e.values, vec![0, 1, 3, 5]);
    assert_eq!(
        e.access,
        vec![
            AccessItem::Operator,
            AccessItem::Temporary(0),
            AccessItem::Temporary(1),
            AccessItem::Argument(2),
            AccessItem::Temporary(2),
            AccessItem::Argument(4),
            AccessItem::Temporary(3),
        ]
    );
    assert_eq!(e.store, "NCL-SETF-TEMP-4");
}

#[test]
fn a_plain_rest_list_binds_every_remaining_argument() {
    let e = long_defsetf_expansion(4, 1, true, false, &vec![], 3);
    assert_eq!(e.values, vec![0, 1, 2, 3]);
    assert_eq!(
        e.access,
        vec![
            AccessItem::Operator,
            AccessItem::Temporary(0),
            AccessItem::Temporary(1),
            AccessItem::Temporary(2),
            AccessItem::Temporary(3),
        ]
    );
    assert_eq!(e.temporaries.len(), 4);
    assert_eq!(e.store, "NCL-SETF-TEMP-7");
    let none = long_defsetf_expansion(0, 0, false, false, &vec![], 0);
    assert!(none.values.is_empty());
    assert_eq!(none.access, vec![AccessItem::Operator]);
    assert_eq!(none.store, "NCL-SETF-TEMP-0");
}
