//! The decisions of SETF: which argument of a modify macro holds the place,
//! how an index is read, and the container each supported place stores
//! back once its parts have been evaluated.
use vstd::prelude::*;
use crate::error::{invalid, reports, type_error, Failure, RuntimeError};
use crate::names::{unqualified, unqualified_text};
use crate::runtime::Runtime;
use crate::syntax::Span;
use crate::text::{chars_of, string_from, text_is};
use crate::sequence_options::{elements_of, is_sequence, sequence_items, string_of_values, text_of_values};
use crate::value::{kind_name_of, list_items_of, same_object, Value};

verus! {

/// Operators whose place is their first argument.
pub open spec fn first_argument_place(op: Seq<char>) -> bool {
    op == "CAR"@ || op == "FIRST"@ || op == "CDR"@ || op == "REST"@ || op == "GETF"@ || op == "ELT"@
        || op == "CHAR"@ || op == "SCHAR"@ || op == "BIT"@ || op == "AREF"@ || op == "ROW-MAJOR-AREF"@
        || op == "SVREF"@ || op == "SUBSEQ"@
}

/// The argument position that holds the place of a modify macro's
/// operator form: the first argument for accessors of their first
/// argument, the second for `NTH`.
pub open spec fn container_index_of(op: Seq<char>) -> Option<nat> {
    if first_argument_place(op) {
        Some(0)
    } else if op == "NTH"@ {
        Some(1)
    } else {
        None
    }
}

fn names_first_argument_place(n: &Vec<char>) -> (r: bool)
    ensures
        r == first_argument_place(n@),
{
    text_is(n, "CAR") || text_is(n, "FIRST") || text_is(n, "CDR") || text_is(n, "REST") || text_is(n, "GETF")
        || text_is(n, "ELT") || text_is(n, "CHAR") || text_is(n, "SCHAR") || text_is(n, "BIT") || text_is(
        n,
        "AREF",
    ) || text_is(n, "ROW-MAJOR-AREF") || text_is(n, "SVREF") || text_is(n, "SUBSEQ")
}

/// What reading a value as a SETF index gives: a non-negative integer
/// that fits an index, or the error reported.
pub open spec fn setf_index_outcome(v: Value, span: Span) -> Result<nat, Failure> {
    match v {
        Value::Integer(i) => if i < 0 {
            Err(Failure::Invalid("SETF index must be non-negative"@, span))
        } else if i > usize::MAX {
            Err(Failure::Invalid("SETF index is too large"@, span))
        } else {
            Ok(i as nat)
        },
        _ => Err(Failure::Type("INTEGER"@, kind_name_of(v), span)),
    }
}

/// `r` is the index outcome `o`.
pub open spec fn index_read_as(o: Result<nat, Failure>, r: Result<usize, RuntimeError>) -> bool {
    match o {
        Ok(n) => r matches Ok(k) && k == n,
        Err(f) => r matches Err(e) && reports(e, f),
    }
}

/// The container a place update stores back.
pub enum Rebuilt {
    List(Seq<Value>),
    Vector(Seq<Value>),
    Text(Seq<char>),
}

/// Whether `v` is the rebuilt container `b`.
pub open spec fn holds(v: Value, b: Rebuilt) -> bool {
    match b {
        Rebuilt::List(items) => list_items_of(v) == Some(items),
        Rebuilt::Vector(items) => v matches Value::Vector(l) && l@ == items,
        Rebuilt::Text(cs) => v matches Value::String(s) && s@ == cs,
    }
}

/// `r` is the update outcome `o`.
pub open spec fn update_result(o: Result<Rebuilt, Failure>, r: Result<Value, RuntimeError>) -> bool {
    match o {
        Ok(b) => r matches Ok(v) && holds(v, b),
        Err(f) => r matches Err(e) && reports(e, f),
    }
}

/// The out-of-bounds error of an index.
pub open spec fn out_of_bounds(span: Span) -> Failure {
    Failure::Invalid("SETF index is out of bounds"@, span)
}

/// `(setf (car list) value)`: the list with its first element replaced.
pub open spec fn car_update(current: Value, value: Value, span: Span) -> Result<Rebuilt, Failure> {
    match list_items_of(current) {
        None => Err(Failure::Type("LIST"@, kind_name_of(current), span)),
        Some(items) => if items.len() == 0 {
            Err(Failure::Invalid("cannot SETF CAR of NIL"@, span))
        } else {
            Ok(Rebuilt::List(items.update(0, value)))
        },
    }
}

/// `(setf (cdr list) value)`: the first element of the list followed by
/// the elements of the new tail.
pub open spec fn cdr_update(current: Value, value: Value, span: Span, place_span: Span) -> Result<
    Rebuilt,
    Failure,
> {
    match list_items_of(current) {
        None => Err(Failure::Type("LIST"@, kind_name_of(current), span)),
        Some(items) => if items.len() == 0 {
            Err(Failure::Invalid("cannot SETF CDR of NIL"@, span))
        } else {
            match list_items_of(value) {
                None => Err(Failure::Type("LIST"@, kind_name_of(value), place_span)),
                Some(rest) => Ok(Rebuilt::List(seq![items[0]] + rest)),
            }
        },
    }
}

/// `(setf (nth index list) value)`.
pub open spec fn nth_update(index: nat, current: Value, value: Value, index_span: Span, list_span: Span) -> Result<
    Rebuilt,
    Failure,
> {
    match list_items_of(current) {
        None => Err(Failure::Type("LIST"@, kind_name_of(current), list_span)),
        Some(items) => if index < items.len() {
            Ok(Rebuilt::List(items.update(index as int, value)))
        } else {
            Err(out_of_bounds(index_span))
        },
    }
}

/// `(setf (elt sequence index) value)` on a list, a vector or a string.
pub open spec fn elt_update(
    current: Value,
    index: nat,
    value: Value,
    sequence_span: Span,
    index_span: Span,
    place_span: Span,
) -> Result<Rebuilt, Failure> {
    match current {
        Value::Nil => Err(out_of_bounds(index_span)),
        Value::List(l) => if index < l@.len() {
            Ok(Rebuilt::List(l@.update(index as int, value)))
        } else {
            Err(out_of_bounds(index_span))
        },
        Value::Vector(l) => if index < l@.len() {
            Ok(Rebuilt::Vector(l@.update(index as int, value)))
        } else {
            Err(out_of_bounds(index_span))
        },
        Value::String(s) => match value {
            Value::Character(c) => if index < s@.len() {
                Ok(Rebuilt::Text(s@.update(index as int, c)))
            } else {
                Err(out_of_bounds(index_span))
            },
            _ => Err(Failure::Type("CHARACTER"@, kind_name_of(value), place_span)),
        },
        _ => Err(Failure::Type("SEQUENCE"@, kind_name_of(current), sequence_span)),
    }
}

/// `(setf (char string index) character)`.
pub open spec fn char_update(
    current: Value,
    index: nat,
    value: Value,
    string_span: Span,
    index_span: Span,
    place_span: Span,
) -> Result<Rebuilt, Failure> {
    match current {
        Value::String(s) => match value {
            Value::Character(c) => if index < s@.len() {
                Ok(Rebuilt::Text(s@.update(index as int, c)))
            } else {
                Err(out_of_bounds(index_span))
            },
            _ => Err(Failure::Type("CHARACTER"@, kind_name_of(value), place_span)),
        },
        _ => Err(Failure::Type("STRING"@, kind_name_of(current), string_span)),
    }
}

/// `(setf (svref vector index) value)` and the vector cases of `AREF` and
/// `ROW-MAJOR-AREF`; `expected` names the type a non-vector is reported
/// against.
pub open spec fn vector_update(
    current: Value,
    index: nat,
    value: Value,
    expected: Seq<char>,
    vector_span: Span,
    index_span: Span,
) -> Result<Rebuilt, Failure> {
    match current {
        Value::Vector(l) => if index < l@.len() {
            Ok(Rebuilt::Vector(l@.update(index as int, value)))
        } else {
            Err(out_of_bounds(index_span))
        },
        _ => Err(Failure::Type(expected, kind_name_of(current), vector_span)),
    }
}

/// `items` with one element replaced.
fn replaced(items: Vec<Value>, index: usize, value: Value) -> (r: Vec<Value>)
    requires
        index < items.len(),
    ensures
        r@ == items@.update(index as int, value),
{
    let mut items = items;
    items.set(index, value);
    items
}

/// The text with one character replaced.
fn replaced_char(s: &String, index: usize, c: char) -> (r: Option<String>)
    ensures
        index < s@.len() ==> (r matches Some(t) && t@ == s@.update(index as int, c)),
        index >= s@.len() ==> r is None,
{
    let mut cs = chars_of(s.as_str());
    if index < cs.len() {
        cs.set(index, c);
        Some(string_from(&cs))
    } else {
        None
    }
}

/// The element position a list accessor such as `SECOND` names.
pub open spec fn list_accessor_index_of(op: Seq<char>) -> Option<nat> {
    if op == "FIRST"@ {
        Some(0)
    } else if op == "SECOND"@ {
        Some(1)
    } else if op == "THIRD"@ {
        Some(2)
    } else if op == "FOURTH"@ {
        Some(3)
    } else if op == "FIFTH"@ {
        Some(4)
    } else if op == "SIXTH"@ {
        Some(5)
    } else if op == "SEVENTH"@ {
        Some(6)
    } else if op == "EIGHTH"@ {
        Some(7)
    } else if op == "NINTH"@ {
        Some(8)
    } else if op == "TENTH"@ {
        Some(9)
    } else {
        None
    }
}

impl Runtime {
    /// The position of the place argument of a modify macro such as
    /// `INCF` applied to an accessor form, if the form has that argument.
    pub fn modify_macro_container_index(operator: &str, argument_count: usize) -> (r: Option<usize>)
        ensures
            match container_index_of(unqualified(operator@)) {
                Some(i) => if i < argument_count {
                    r == Some(i as usize)
                } else {
                    r is None
                },
                None => r is None,
            },
    {
        let v = chars_of(operator);
        let n = unqualified_text(&v);
        let index: usize = if names_first_argument_place(&n) {
            0
        } else if text_is(&n, "NTH") {
            1
        } else {
            return None;
        };
        if index < argument_count {
            Some(index)
        } else {
            None
        }
    }

    /// The element position that a list accessor from `FIRST` to `TENTH`
    /// stands for, with or without a package prefix.
    pub fn list_accessor_setf_index(operator: &str) -> (r: Option<usize>)
        ensures
            match list_accessor_index_of(unqualified(operator@)) {
                Some(i) => r == Some(i as usize),
                None => r is None,
            },
    {
        let v = chars_of(operator);
        let n = unqualified_text(&v);
        if text_is(&n, "FIRST") {
            Some(0)
        } else if text_is(&n, "SECOND") {
            Some(1)
        } else if text_is(&n, "THIRD") {
            Some(2)
        } else if text_is(&n, "FOURTH") {
            Some(3)
        } else if text_is(&n, "FIFTH") {
            Some(4)
        } else if text_is(&n, "SIXTH") {
            Some(5)
        } else if text_is(&n, "SEVENTH") {
            Some(6)
        } else if text_is(&n, "EIGHTH") {
            Some(7)
        } else if text_is(&n, "NINTH") {
            Some(8)
        } else if text_is(&n, "TENTH") {
            Some(9)
        } else {
            None
        }
    }

    /// Reads a value as a SETF index (see `setf_index_outcome`).
    pub fn setf_index(&self, value: Value, span: Span) -> (r: Result<usize, RuntimeError>)
        ensures
            index_read_as(setf_index_outcome(value, span), r),
    {
        match value {
            Value::Integer(index) => {
                if index < 0 {
                    Err(invalid("SETF index must be non-negative", span))
                } else if index as u64 > usize::MAX as u64 {
                    Err(invalid("SETF index is too large", span))
                } else {
                    Ok(index as usize)
                }
            },
            other => Err(type_error("INTEGER", &other, span)),
        }
    }
}

/// The list to store back for `(setf (car list) value)`.
pub fn setf_car_value(current: &Value, value: Value, span: Span) -> (r: Result<Value, RuntimeError>)
    ensures
        update_result(car_update(*current, value, span), r),
{
    match current.list_items() {
        None => Err(type_error("LIST", current, span)),
        Some(items) => {
            if items.len() == 0 {
                Err(invalid("cannot SETF CAR of NIL", span))
            } else {
                Ok(Value::list(replaced(items, 0, value)))
            }
        },
    }
}

/// The list to store back for `(setf (cdr list) value)`.
pub fn setf_cdr_value(current: &Value, value: &Value, span: Span, place_span: Span) -> (r: Result<
    Value,
    RuntimeError,
>)
    ensures
        update_result(cdr_update(*current, *value, span, place_span), r),
{
    match current.list_items() {
        None => Err(type_error("LIST", current, span)),
        Some(items) => {
            if items.len() == 0 {
                return Err(invalid("cannot SETF CDR of NIL", span));
            }
            match value.list_items() {
                None => Err(type_error("LIST", value, place_span)),
                Some(rest) => {
                    let mut rebuilt: Vec<Value> = Vec::new();
                    rebuilt.push(items[0].clone());
                    let mut i: usize = 0;
                    while i < rest.len()
                        invariant
                            i <= rest.len(),
                            items@.len() > 0,
                            rebuilt@ == seq![items@[0]] + rest@.take(i as int),
                        decreases rest.len() - i,
                    {
                        rebuilt.push(rest[i].clone());
                        proof {
                            assert(rest@.take(i + 1) =~= rest@.take(i as int).push(rest@[i as int]));
                        }
                        i = i + 1;
                    }
                    proof {
                        assert(rest@.take(rest.len() as int) =~= rest@);
                    }
                    Ok(Value::list(rebuilt))
                },
            }
        },
    }
}

/// The list to store back for `(setf (nth index list) value)`.
pub fn setf_nth_value(index: usize, current: &Value, value: Value, index_span: Span, list_span: Span) -> (r:
    Result<Value, RuntimeError>)
    ensures
        update_result(nth_update(index as nat, *current, value, index_span, list_span), r),
{
    match current.list_items() {
        None => Err(type_error("LIST", current, list_span)),
        Some(items) => {
            if index < items.len() {
                Ok(Value::list(replaced(items, index, value)))
            } else {
                Err(invalid("SETF index is out of bounds", index_span))
            }
        },
    }
}

/// The sequence to store back for `(setf (elt sequence index) value)`.
pub fn setf_elt_value(
    current: &Value,
    index: usize,
    value: Value,
    sequence_span: Span,
    index_span: Span,
    place_span: Span,
) -> (r: Result<Value, RuntimeError>)
    ensures
        update_result(elt_update(*current, index as nat, value, sequence_span, index_span, place_span), r),
{
    match current {
        Value::Nil => Err(invalid("SETF index is out of bounds", index_span)),
        Value::List(items) => {
            if index < items.len() {
                let copy = crate::sequence_options::copy_values(items);
                Ok(Value::list(replaced(copy, index, value)))
            } else {
                Err(invalid("SETF index is out of bounds", index_span))
            }
        },
        Value::Vector(items) => {
            if index < items.len() {
                let copy = crate::sequence_options::copy_values(items);
                Ok(Value::vector(replaced(copy, index, value)))
            } else {
                Err(invalid("SETF index is out of bounds", index_span))
            }
        },
        Value::String(s) => match value {
            Value::Character(c) => match replaced_char(s, index, c) {
                Some(t) => Ok(Value::String(t)),
                None => Err(invalid("SETF index is out of bounds", index_span)),
            },
            other => Err(type_error("CHARACTER", &other, place_span)),
        },
        _ => Err(type_error("SEQUENCE", current, sequence_span)),
    }
}

/// The string to store back for `(setf (char string index) character)`.
pub fn setf_char_value(
    current: &Value,
    index: usize,
    value: Value,
    string_span: Span,
    index_span: Span,
    place_span: Span,
) -> (r: Result<Value, RuntimeError>)
    ensures
        update_result(char_update(*current, index as nat, value, string_span, index_span, place_span), r),
{
    match current {
        Value::String(s) => match value {
            Value::Character(c) => match replaced_char(s, index, c) {
                Some(t) => Ok(Value::String(t)),
                None => Err(invalid("SETF index is out of bounds", index_span)),
            },
            other => Err(type_error("CHARACTER", &other, place_span)),
        },
        _ => Err(type_error("STRING", current, string_span)),
    }
}

/// The vector to store back for `(setf (svref vector index) value)` and
/// the vector cases of `AREF` and `ROW-MAJOR-AREF`.
pub fn setf_vector_value(
    current: &Value,
    index: usize,
    value: Value,
    expected: &str,
    vector_span: Span,
    index_span: Span,
) -> (r: Result<Value, RuntimeError>)
    ensures
        update_result(vector_update(*current, index as nat, value, expected@, vector_span, index_span), r),
{
    match current {
        Value::Vector(items) => {
            if index < items.len() {
                let copy = crate::sequence_options::copy_values(items);
                Ok(Value::vector(replaced(copy, index, value)))
            } else {
                Err(invalid("SETF index is out of bounds", index_span))
            }
        },
        _ => Err(type_error(expected, current, vector_span)),
    }
}

/// The first even position of the property list `p`, from position `k`
/// on, whose indicator is `indicator`.
pub open spec fn property_from(p: Seq<Value>, indicator: Value, k: nat) -> Option<nat>
    decreases p.len() + 2 - k,
{
    if k >= p.len() {
        None
    } else if same_object(p[k as int], indicator) {
        Some(k)
    } else {
        property_from(p, indicator, k + 2)
    }
}

/// The value stored under `indicator` in the property list `p`.
pub open spec fn property_value(p: Seq<Value>, indicator: Value) -> Option<Value> {
    match property_from(p, indicator, 0) {
        Some(k) => Some(p[k + 1 as int]),
        None => None,
    }
}

/// The property list `p` with `value` stored under `indicator`: the
/// value of the first entry for it replaced, or a new entry at the end.
pub open spec fn put_property(p: Seq<Value>, indicator: Value, value: Value) -> Seq<Value> {
    match property_from(p, indicator, 0) {
        Some(k) => p.update(k + 1 as int, value),
        None => p.push(indicator).push(value),
    }
}

/// `(setf (getf plist indicator) value)` and `(setf (get symbol
/// indicator) value)`: the property list with the value stored, or the
/// error for a plist that is no list or has an odd length.
pub open spec fn property_update(plist: Value, indicator: Value, value: Value, span: Span, message: Seq<char>) -> Result<
    Rebuilt,
    Failure,
> {
    match list_items_of(plist) {
        None => Err(Failure::Type("LIST"@, kind_name_of(plist), span)),
        Some(p) => if p.len() % 2 != 0 {
            Err(Failure::Invalid(message, span))
        } else {
            Ok(Rebuilt::List(put_property(p, indicator, value)))
        },
    }
}

pub proof fn lemma_property_from_bounds(p: Seq<Value>, indicator: Value, k: nat)
    requires
        p.len() % 2 == 0,
        k % 2 == 0,
    ensures
        property_from(p, indicator, k) matches Some(j) ==> j >= k && j % 2 == 0 && j + 1 < p.len()
            && same_object(p[j as int], indicator),
    decreases p.len() - k,
{
    if k < p.len() && !same_object(p[k as int], indicator) {
        lemma_property_from_bounds(p, indicator, k + 2);
    }
}

/// Where the search from `k` looks only at positions before `n`, the
/// entries from `n` on do not change its result.
proof fn lemma_property_from_prefix(p: Seq<Value>, q: Seq<Value>, indicator: Value, k: nat, n: nat)
    requires
        n <= p.len(),
        n <= q.len(),
        p.len() % 2 == 0,
        n % 2 == 0,
        k % 2 == 0,
        forall|i: int| 0 <= i < n && i % 2 == 0 ==> p[i] == q[i],
        property_from(p, indicator, k) matches Some(j) && j < n,
    ensures
        property_from(q, indicator, k) == property_from(p, indicator, k),
    decreases p.len() - k,
{
    lemma_property_from_bounds(p, indicator, k);
    if !same_object(p[k as int], indicator) {
        lemma_property_from_prefix(p, q, indicator, k + 2, n);
    }
}

/// A search that finds nothing in the first `n` entries of `q`, which
/// agree with `p`, goes on where the entries of `q` from `n` on start.
proof fn lemma_property_from_miss(p: Seq<Value>, q: Seq<Value>, indicator: Value, k: nat, n: nat)
    requires
        n <= q.len(),
        p.len() == n,
        n % 2 == 0,
        k % 2 == 0,
        k <= n,
        forall|i: int| 0 <= i < n ==> p[i] == q[i],
        property_from(p, indicator, k) is None,
    ensures
        property_from(q, indicator, k) == property_from(q, indicator, n),
    decreases n - k,
{
    if k < n {
        lemma_property_from_miss(p, q, indicator, k + 2, n);
    }
}

/// Storing a value under an indicator keeps the property list even.
pub proof fn lemma_put_property_even(p: Seq<Value>, indicator: Value, value: Value)
    requires
        p.len() % 2 == 0,
    ensures
        put_property(p, indicator, value).len() % 2 == 0,
{
    lemma_property_from_bounds(p, indicator, 0);
}

/// After storing a value under an indicator that is `EQ` to itself, the
/// indicator reads back that value.
pub proof fn lemma_put_then_get(p: Seq<Value>, indicator: Value, value: Value)
    requires
        p.len() % 2 == 0,
        same_object(indicator, indicator),
    ensures
        property_value(put_property(p, indicator, value), indicator) == Some(value),
{
    lemma_property_from_bounds(p, indicator, 0);
    let q = put_property(p, indicator, value);
    match property_from(p, indicator, 0) {
        Some(j) => {
            lemma_property_from_prefix(p, q, indicator, 0, (j + 2) as nat);
        },
        None => {
            lemma_property_from_miss(p, q, indicator, 0, p.len());
            assert(q[p.len() as int] == indicator);
        },
    }
}

/// Two values `EQ` to a third are `EQ` to each other.
proof fn lemma_same_object_link(a: Value, b: Value, c: Value)
    requires
        same_object(a, b),
        same_object(a, c),
    ensures
        same_object(b, c),
{
}

/// Two property lists with the same indicators answer every search alike.
proof fn lemma_property_from_keys(p: Seq<Value>, q: Seq<Value>, indicator: Value, k: nat)
    requires
        p.len() == q.len(),
        forall|i: int| 0 <= i < p.len() && i % 2 == k % 2 ==> p[i] == q[i],
    ensures
        property_from(q, indicator, k) == property_from(p, indicator, k),
    decreases p.len() + 2 - k,
{
    if k < p.len() {
        lemma_property_from_keys(p, q, indicator, k + 2);
    }
}

/// Storing a value under one indicator leaves what every indicator not
/// `EQ` to it reads unchanged.
pub proof fn lemma_put_keeps_other(p: Seq<Value>, indicator: Value, value: Value, other: Value)
    requires
        p.len() % 2 == 0,
        !same_object(indicator, other),
    ensures
        property_value(put_property(p, indicator, value), other) == property_value(p, other),
{
    lemma_property_from_bounds(p, indicator, 0);
    lemma_property_from_bounds(p, other, 0);
    let q = put_property(p, indicator, value);
    match property_from(p, indicator, 0) {
        Some(j) => {
            lemma_property_from_keys(p, q, other, 0);
            match property_from(p, other, 0) {
                Some(k) => {
                    if k == j {
                        lemma_same_object_link(p[j as int], indicator, other);
                    }
                    assert(q[k + 1 as int] == p[k + 1 as int]);
                },
                None => {},
            }
        },
        None => {
            match property_from(p, other, 0) {
                Some(k) => {
                    assert(forall|i: int| 0 <= i < p.len() ==> p[i] == q[i]);
                    lemma_property_from_prefix(p, q, other, 0, p.len());
                    assert(q[k + 1 as int] == p[k + 1 as int]);
                },
                None => {
                    lemma_property_from_miss(p, q, other, 0, p.len());
                    assert(q[p.len() as int] == indicator);
                    assert(property_from(q, other, (p.len() + 2) as nat) is None);
                    assert(property_from(q, other, p.len()) is None);
                },
            }
        },
    }
}

/// The first even position of `p` whose indicator is `EQ` to `indicator`.
fn find_property(p: &Vec<Value>, indicator: &Value) -> (r: Option<usize>)
    requires
        p.len() % 2 == 0,
    ensures
        match r {
            Some(k) => property_from(p@, *indicator, 0) == Some(k as nat),
            None => property_from(p@, *indicator, 0) is None,
        },
{
    let mut index: usize = 0;
    while index < p.len()
        invariant
            p.len() % 2 == 0,
            index % 2 == 0,
            index <= p.len(),
            property_from(p@, *indicator, 0) == property_from(p@, *indicator, index as nat),
        decreases p.len() - index,
    {
        if p[index].eq_value(indicator) {
            return Some(index);
        }
        index = index + 2;
    }
    None
}

/// The property list to store back for `(setf (getf plist indicator)
/// value)` or `(setf (get symbol indicator) value)` (see
/// `property_update`); `message` reports a list of odd length.
pub fn setf_property_value(plist: &Value, indicator: Value, value: Value, span: Span, message: &str) -> (r: Result<
    Value,
    RuntimeError,
>)
    ensures
        update_result(property_update(*plist, indicator, value, span, message@), r),
{
    match plist.list_items() {
        None => Err(type_error("LIST", plist, span)),
        Some(properties) => {
            if properties.len() % 2 != 0 {
                return Err(invalid(message, span));
            }
            proof {
                lemma_property_from_bounds(properties@, indicator, 0);
            }
            match find_property(&properties, &indicator) {
                Some(k) => Ok(Value::list(replaced(properties, k + 1, value))),
                None => {
                    let mut properties = properties;
                    properties.push(indicator);
                    properties.push(value);
                    Ok(Value::list(properties))
                },
            }
        },
    }
}

/// The elements of a sequence value: those that `elements_of` relates
/// to it, which are unique (see `lemma_elements_unique`).
pub open spec fn elements(v: Value) -> Seq<Value> {
    choose|items: Seq<Value>| elements_of(v, items)
}

/// A sequence value has one list of elements.
pub proof fn lemma_elements_unique(v: Value, a: Seq<Value>, b: Seq<Value>)
    requires
        elements_of(v, a),
        elements_of(v, b),
    ensures
        a == b,
{
    if v is String {
        assert(a =~= b);
    }
}

proof fn lemma_elements_are(v: Value, items: Seq<Value>)
    requires
        elements_of(v, items),
    ensures
        elements(v) == items,
{
    lemma_elements_unique(v, elements(v), items);
}

/// `dest` with the elements from `start` on replaced by the first elements
/// of `repl`, as many as fit before `end` and as `repl` has.
pub open spec fn spliced(dest: Seq<Value>, repl: Seq<Value>, start: int, end: int) -> Seq<Value> {
    let count = if end - start < repl.len() {
        end - start
    } else {
        repl.len() as int
    };
    dest.subrange(0, start) + repl.subrange(0, count) + dest.subrange(start + count, dest.len() as int)
}

/// The container of the same kind as `current` made of `items`; a string
/// needs characters, and the first other element is reported.
pub open spec fn rebuilt_like(current: Value, items: Seq<Value>, place_span: Span) -> Result<Rebuilt, Failure> {
    match current {
        Value::Vector(_) => Ok(Rebuilt::Vector(items)),
        Value::String(_) => match text_of_values(items) {
            Ok(cs) => Ok(Rebuilt::Text(cs)),
            Err(bad) => Err(Failure::Type("CHARACTER"@, kind_name_of(bad), place_span)),
        },
        _ => Ok(Rebuilt::List(items)),
    }
}

/// `(setf (subseq sequence start end) value)`: the bounds are checked
/// against the sequence (`end` defaults to its length), the new value must
/// be a sequence, and as many of its elements as fit replace those from
/// `start` on.
pub open spec fn subseq_update(
    current: Value,
    start: nat,
    end: Option<usize>,
    value: Value,
    sequence_span: Span,
    place_span: Span,
) -> Result<Rebuilt, Failure> {
    let dest = elements(current);
    let e: int = match end {
        Some(x) => x as int,
        None => dest.len() as int,
    };
    if !is_sequence(current) {
        Err(Failure::Type("SEQUENCE"@, kind_name_of(current), sequence_span))
    } else if start > e || e > dest.len() {
        Err(Failure::Invalid("SETF SUBSEQ bounds are invalid"@, place_span))
    } else if !is_sequence(value) {
        Err(Failure::Type("SEQUENCE"@, kind_name_of(value), place_span))
    } else {
        rebuilt_like(current, spliced(dest, elements(value), start as int, e), place_span)
    }
}

/// Appends `src[from..to]` to `out`.
fn append_range(out: &mut Vec<Value>, src: &Vec<Value>, from: usize, to: usize)
    requires
        from <= to <= src.len(),
    ensures
        final(out)@ == old(out)@ + src@.subrange(from as int, to as int),
{
    let ghost start = out@;
    let mut i: usize = from;
    while i < to
        invariant
            from <= i <= to <= src.len(),
            out@ == start + src@.subrange(from as int, i as int),
        decreases to - i,
    {
        out.push(src[i].clone());
        proof {
            assert(src@.subrange(from as int, i + 1) =~= src@.subrange(from as int, i as int).push(src@[i as int]));
        }
        i = i + 1;
    }
}

/// The sequence to store back for `(setf (subseq sequence start end)
/// value)` (see `subseq_update`): a place that holds no sequence is a
/// type error at `sequence_span`, reported before the bounds are checked.
pub fn setf_subseq_value(
    current: &Value,
    start: usize,
    end: Option<usize>,
    value: &Value,
    sequence_span: Span,
    place_span: Span,
) -> (r: Result<Value, RuntimeError>)
    ensures
        update_result(subseq_update(*current, start as nat, end, *value, sequence_span, place_span), r),
{
    let dest = match sequence_items(current, sequence_span) {
        Ok(items) => items,
        Err(error) => return Err(error),
    };
    proof {
        lemma_elements_are(*current, dest@);
    }
    let e = match end {
        Some(x) => x,
        None => dest.len(),
    };
    if start > e || e > dest.len() {
        return Err(invalid("SETF SUBSEQ bounds are invalid", place_span));
    }
    let repl = match sequence_items(value, place_span) {
        Ok(items) => items,
        Err(error) => return Err(error),
    };
    proof {
        lemma_elements_are(*value, repl@);
    }
    let count = if e - start < repl.len() {
        e - start
    } else {
        repl.len()
    };
    let mut out: Vec<Value> = Vec::new();
    append_range(&mut out, &dest, 0, start);
    append_range(&mut out, &repl, 0, count);
    append_range(&mut out, &dest, start + count, dest.len());
    proof {
        assert(out@ =~= spliced(dest@, repl@, start as int, e as int));
    }
    match current {
        Value::Vector(_) => Ok(Value::vector(out)),
        Value::String(_) => string_of_values(out, place_span),
        _ => Ok(Value::list(out)),
    }
}

/// The product of the dimensions from axis `k` on, multiplied into `acc`
/// one axis at a time; None once a partial product leaves the index range.
pub open spec fn stride_from(dims: Seq<usize>, k: nat, acc: nat) -> Option<nat>
    decreases dims.len() - k,
{
    if k >= dims.len() {
        Some(acc)
    } else if acc * dims[k as int] > usize::MAX {
        None
    } else {
        stride_from(dims, k + 1, acc * (dims[k as int] as nat))
    }
}


/// The index-too-large error.
pub open spec fn too_large(span: Span) -> Failure {
    Failure::Invalid("SETF index is too large"@, span)
}

/// The row-major offset of the subscripts `indices` into an array of
/// dimensions `dims`, read from axis `k` on with `acc` accumulated: each
/// subscript is read as a SETF index and must be below its dimension; its
/// stride and contribution must stay in the index range.
pub open spec fn offset_from(
    dims: Seq<usize>,
    indices: Seq<Value>,
    spans: Seq<Span>,
    place_span: Span,
    k: nat,
    acc: nat,
) -> Result<nat, Failure>
    decreases dims.len() - k,
{
    if k >= dims.len() {
        Ok(acc)
    } else {
        match setf_index_outcome(indices[k as int], spans[k as int]) {
            Err(f) => Err(f),
            Ok(i) => if i >= dims[k as int] {
                Err(out_of_bounds(spans[k as int]))
            } else {
                match stride_from(dims, k + 1, 1) {
                    None => Err(too_large(place_span)),
                    Some(st) => if i * st > usize::MAX {
                        Err(too_large(place_span))
                    } else if acc + i * st > usize::MAX {
                        Err(too_large(place_span))
                    } else {
                        offset_from(dims, indices, spans, place_span, k + 1, acc + i * st)
                    },
                }
            },
        }
    }
}

/// The product of the dimensions from axis `from` on (see `stride_from`).
fn stride_after(dims: &Vec<usize>, from: usize) -> (r: Option<usize>)
    ensures
        match stride_from(dims@, from as nat, 1) {
            Some(s) => r matches Some(x) && x == s,
            None => r is None,
        },
{
    let mut acc: usize = 1;
    let mut k: usize = from;
    while k < dims.len()
        invariant
            from <= k,
            stride_from(dims@, from as nat, 1) == stride_from(dims@, k as nat, acc as nat),
        decreases dims.len() - k,
    {
        match acc.checked_mul(dims[k]) {
            Some(a) => {
                acc = a;
            },
            None => {
                return None;
            },
        }
        k = k + 1;
    }
    Some(acc)
}

impl Runtime {
    /// The row-major position of the element that `(setf (aref array
    /// subscripts...) value)` or `(setf (bit ...) value)` replaces (see
    /// `offset_from`); `spans` are the places of the subscripts.
    pub fn array_element_offset(
        &self,
        dimensions: &Vec<usize>,
        indices: &Vec<Value>,
        spans: &Vec<Span>,
        place_span: Span,
    ) -> (r: Result<usize, RuntimeError>)
        requires
            indices.len() == dimensions.len(),
            spans.len() == dimensions.len(),
        ensures
            index_read_as(offset_from(dimensions@, indices@, spans@, place_span, 0, 0), r),
    {
        let mut offset: usize = 0;
        let mut axis: usize = 0;
        while axis < dimensions.len()
            invariant
                indices.len() == dimensions.len(),
                spans.len() == dimensions.len(),
                offset_from(dimensions@, indices@, spans@, place_span, 0, 0) == offset_from(
                    dimensions@,
                    indices@,
                    spans@,
                    place_span,
                    axis as nat,
                    offset as nat,
                ),
            decreases dimensions.len() - axis,
        {
            let index = match self.setf_index(indices[axis].clone(), spans[axis]) {
                Ok(i) => i,
                Err(error) => return Err(error),
            };
            if index >= dimensions[axis] {
                return Err(invalid("SETF index is out of bounds", spans[axis]));
            }
            let stride = match stride_after(dimensions, axis + 1) {
                Some(s) => s,
                None => return Err(invalid("SETF index is too large", place_span)),
            };
            let ghost product: int = index as int * stride as int;
            let contribution = match index.checked_mul(stride) {
                Some(c) => c,
                None => {
                    assert(product > usize::MAX);
                    return Err(invalid("SETF index is too large", place_span));
                },
            };
            assert(contribution == product);
            offset = match offset.checked_add(contribution) {
                Some(o) => o,
                None => {
                    assert(offset + product > usize::MAX);
                    return Err(invalid("SETF index is too large", place_span));
                },
            };
            axis = axis + 1;
        }
        Ok(offset)
    }
}

/// An array of any rank: its dimensions and its elements in row-major
/// order.
pub struct ArrayValue {
    pub dimensions: Vec<usize>,
    pub storage: Vec<Value>,
}

/// The expectation an arity error of `(setf (aref array ...) value)`
/// reports on an array of rank `rank`.
pub open spec fn rank_expectation(rank: nat) -> Seq<char> {
    crate::printer::decimal(rank as int) + " indices"@
}

impl Runtime {
    /// `(setf (aref array subscripts...) value)` on an array: one subscript
    /// per dimension (else an arity error counting the subscripts), each
    /// read and checked as `offset_from` says; the element at that
    /// row-major position is replaced, a position past the storage is out
    /// of bounds at the place. `spans` are the places of the subscripts.
    pub fn setf_array_element(
        &self,
        array: &ArrayValue,
        indices: &Vec<Value>,
        spans: &Vec<Span>,
        value: Value,
        place_span: Span,
    ) -> (r: Result<ArrayValue, RuntimeError>)
        requires
            spans.len() == indices.len(),
        ensures
            indices.len() != array.dimensions.len() ==> (r matches Err(e) && crate::error::is_arity_error(
                e,
                "setf aref"@,
                rank_expectation(array.dimensions.len() as nat),
                indices.len() as nat,
            )),
            indices.len() == array.dimensions.len() ==> match offset_from(array.dimensions@, indices@, spans@, place_span, 0, 0) {
                Err(f) => r matches Err(e) && reports(e, f),
                Ok(o) => if o >= array.storage.len() {
                    r matches Err(e) && reports(e, out_of_bounds(place_span))
                } else {
                    r matches Ok(b) && b.dimensions@ == array.dimensions@ && b.storage@ == array.storage@.update(o as int, value)
                },
            },
    {
        if indices.len() != array.dimensions.len() {
            let rank = crate::printer::decimal_text(array.dimensions.len() as i128);
            let words = crate::text::join_text(&rank, &chars_of(" indices"));
            return Err(crate::error::arity("setf aref", string_from(&words).as_str(), indices.len()));
        }
        let offset = self.array_element_offset(&array.dimensions, indices, spans, place_span)?;
        if offset >= array.storage.len() {
            return Err(invalid("SETF index is out of bounds", place_span));
        }
        let mut storage = copy_all(&array.storage);
        storage.set(offset, value);
        let mut dimensions: Vec<usize> = Vec::new();
        let mut k: usize = 0;
        while k < array.dimensions.len()
            invariant
                k <= array.dimensions.len(),
                dimensions@ == array.dimensions@.take(k as int),
            decreases array.dimensions.len() - k,
        {
            dimensions.push(array.dimensions[k]);
            proof {
                assert(array.dimensions@.take(k + 1) =~= array.dimensions@.take(k as int).push(array.dimensions@[k as int]));
            }
            k = k + 1;
        }
        assert(array.dimensions@.take(k as int) =~= array.dimensions@);
        Ok(ArrayValue { dimensions, storage })
    }
}

/// A copy of the values.
fn copy_all(v: &Vec<Value>) -> (r: Vec<Value>)
    ensures
        r@ == v@,
{
    let mut out: Vec<Value> = Vec::new();
    append_range(&mut out, v, 0, v.len());
    assert(v@.subrange(0, v.len() as int) =~= v@);
    out
}

} // verus!
