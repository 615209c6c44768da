//! What the place-modifying macros compute from the values they read:
//! `PUSH`, `POP`, `PUSHNEW`, `REMF`, `ROTATEF` and `SHIFTF`, and the value
//! `NTH-VALUE` picks. Reading and storing the places is the evaluator's.
use vstd::prelude::*;
use crate::error::{invalid, is_invalid, reports, Failure, RuntimeError};
use crate::helpers::{macro_keyword_name, macro_keyword_of};
use crate::packages::message_with;
use crate::runtime::Runtime;
use crate::sequence_search::{first_match, found_first, none_found};
use crate::setf::property_from;
use crate::syntax::{Form, Span};
use crate::text::{chars_of, text_is};
use crate::value::{kind_name_of, list_items_of, same_object, Value};

verus! {

broadcast use vstd::std_specs::vec::group_vec_axioms;

/// The first element of a list, or `NIL` for the empty list.
pub open spec fn first_of(items: Seq<Value>) -> Value {
    if items.len() == 0 {
        Value::Nil
    } else {
        items[0]
    }
}

/// A list without its first element; the empty list stays empty.
pub open spec fn rest_of(items: Seq<Value>) -> Seq<Value> {
    if items.len() == 0 {
        Seq::empty()
    } else {
        items.drop_first()
    }
}

/// The elements of the proper list in a place, or the error `operator`
/// reports for a place that holds no proper list.
pub fn place_list(current: &Value, message: &str, span: Span) -> (r: Result<Vec<Value>, RuntimeError>)
    ensures
        match list_items_of(*current) {
            Some(items) => r matches Ok(v) && v@ == items,
            None => r matches Err(e) && is_invalid(e, message@, span),
        },
{
    match current.list_items() {
        Some(items) => Ok(items),
        None => Err(invalid(message, span)),
    }
}

/// `PUSH`: the list in the place with `value` in front.
pub fn push_onto(value: Value, current: &Value, span: Span) -> (r: Result<Value, RuntimeError>)
    ensures
        match list_items_of(*current) {
            Some(items) => r matches Ok(v) && list_items_of(v) == Some(seq![value] + items),
            None => r matches Err(e) && is_invalid(e, "PUSH place must contain a proper list"@, span),
        },
{
    let mut items = place_list(current, "PUSH place must contain a proper list", span)?;
    let ghost before = items@;
    items.insert(0, value);
    assert(items@ =~= seq![value] + before);
    Ok(Value::list(items))
}

/// `POP`: the first element of the list in the place (`NIL` for the empty
/// list) and the list that is stored back.
pub fn pop_from(current: &Value, span: Span) -> (r: Result<(Value, Value), RuntimeError>)
    ensures
        match list_items_of(*current) {
            Some(items) => r matches Ok((first, rest)) && first == first_of(items) && list_items_of(rest) == Some(
                rest_of(items),
            ),
            None => r matches Err(e) && is_invalid(e, "POP place must contain a proper list"@, span),
        },
{
    let mut items = place_list(current, "POP place must contain a proper list", span)?;
    let ghost before = items@;
    let popped = if items.len() == 0 {
        Value::Nil
    } else {
        items.remove(0)
    };
    proof {
        if before.len() == 0 {
            assert(items@ =~= Seq::<Value>::empty());
        } else {
            assert(items@ =~= before.drop_first());
        }
    }
    Ok((popped, Value::list(items)))
}

/// Popping a list that was just pushed gives back the pushed value and
/// the list it was pushed onto.
pub proof fn lemma_pop_undoes_push(value: Value, items: Seq<Value>)
    ensures
        first_of(seq![value] + items) == value,
        rest_of(seq![value] + items) == items,
{
    assert((seq![value] + items).drop_first() =~= items);
}

/// The keyword options of `PUSHNEW`.
#[derive(Clone, Copy, Debug, PartialEq, Eq)]
pub enum PushnewOption {
    Test,
    TestNot,
    Key,
}

/// What a `PUSHNEW` keyword names, given whether `:test` or `:test-not`
/// came before it; the two exclude each other.
pub open spec fn pushnew_option_outcome(form: Form, seen_test: bool, seen_test_not: bool) -> Result<
    PushnewOption,
    Failure,
> {
    match macro_keyword_of(form) {
        None => Err(Failure::Invalid("PUSHNEW keyword argument name must be a keyword"@, form.span)),
        Some(k) => if k == "TEST"@ {
            if seen_test_not {
                Err(Failure::Invalid("PUSHNEW cannot use both :test and :test-not"@, form.span))
            } else {
                Ok(PushnewOption::Test)
            }
        } else if k == "TEST-NOT"@ {
            if seen_test {
                Err(Failure::Invalid("PUSHNEW cannot use both :test and :test-not"@, form.span))
            } else {
                Ok(PushnewOption::TestNot)
            }
        } else if k == "KEY"@ {
            Ok(PushnewOption::Key)
        } else {
            Err(Failure::Invalid("unknown PUSHNEW keyword :"@ + k, form.span))
        },
    }
}

impl Runtime {
    /// Reads one `PUSHNEW` keyword (see `pushnew_option_outcome`).
    pub fn pushnew_option(form: &Form, seen_test: bool, seen_test_not: bool) -> (r: Result<PushnewOption, RuntimeError>)
        ensures
            match pushnew_option_outcome(*form, seen_test, seen_test_not) {
                Ok(o) => r == Ok::<PushnewOption, RuntimeError>(o),
                Err(f) => r matches Err(e) && reports(e, f),
            },
    {
        let name = match macro_keyword_name(form) {
            Some(n) => n,
            None => return Err(invalid("PUSHNEW keyword argument name must be a keyword", form.span)),
        };
        let text = chars_of(name.as_str());
        if text_is(&text, "TEST") {
            if seen_test_not {
                return Err(invalid("PUSHNEW cannot use both :test and :test-not", form.span));
            }
            Ok(PushnewOption::Test)
        } else if text_is(&text, "TEST-NOT") {
            if seen_test {
                return Err(invalid("PUSHNEW cannot use both :test and :test-not", form.span));
            }
            Ok(PushnewOption::TestNot)
        } else if text_is(&text, "KEY") {
            Ok(PushnewOption::Key)
        } else {
            Err(RuntimeError::InvalidForm { message: message_with("unknown PUSHNEW keyword :", &text), span: Some(form.span) })
        }
    }
}

/// `PUSHNEW`: `test` is asked, in order, whether each element of the list
/// is the item (its answer inverted for `:test-not`). At the first yes the
/// place is left alone (`None`); when every answer is no, the list with
/// the item in front is stored. The first error a call returns is returned.
pub fn adjoined<F: Fn(&Value) -> Result<bool, RuntimeError>>(
    item: Value,
    elements: &Vec<Value>,
    invert: bool,
    test: F,
) -> (r: Result<Option<Value>, RuntimeError>)
    requires
        forall|v: &Value| test.requires((v,)),
    ensures
        r matches Ok(None) ==> exists|i: int| found_first(test, elements@, 0, elements@.len() as int, false, invert, i),
        r matches Ok(Some(v)) ==> none_found(test, elements@, 0, elements@.len() as int, invert) && list_items_of(v)
            == Some(seq![item] + elements@),
        r matches Err(e) ==> exists|j: int|
            0 <= j < elements@.len() && #[trigger] test.ensures((&elements@[j],), Err::<bool, RuntimeError>(e)),
{
    match first_match(elements, 0, elements.len(), false, invert, test) {
        Err(e) => Err(e),
        Ok(Some(_)) => Ok(None),
        Ok(None) => {
            let mut items: Vec<Value> = Vec::new();
            items.push(item);
            let mut k: usize = 0;
            while k < elements.len()
                invariant
                    k <= elements.len(),
                    items@ == seq![item] + elements@.take(k as int),
                decreases elements.len() - k,
            {
                items.push(elements[k].clone());
                proof {
                    assert(elements@.take(k + 1) =~= elements@.take(k as int).push(elements@[k as int]));
                }
                k = k + 1;
            }
            proof {
                assert(elements@.take(elements.len() as int) =~= elements@);
            }
            Ok(Some(Value::list(items)))
        },
    }
}

/// A property list without the first entry for `indicator`, if it has one.
pub open spec fn remove_property(p: Seq<Value>, indicator: Value) -> Option<Seq<Value>> {
    match property_from(p, indicator, 0) {
        Some(k) => Some(p.subrange(0, k as int) + p.subrange(k + 2 as int, p.len() as int)),
        None => None,
    }
}

/// `REMF`: the property list with the entry for `indicator` removed
/// (`None` when there is none, and nothing is stored), or the error for a
/// place that holds no list or a list of odd length.
pub open spec fn remf_outcome(plist: Value, indicator: Value, span: Span) -> Result<Option<Seq<Value>>, Failure> {
    match list_items_of(plist) {
        None => Err(Failure::Type("LIST"@, kind_name_of(plist), span)),
        Some(p) => if p.len() % 2 != 0 {
            Err(Failure::Invalid("REMF needs an even property list"@, span))
        } else {
            Ok(remove_property(p, indicator))
        },
    }
}

/// The first entry for `indicator` from position `k` on.
fn find_property(p: &Vec<Value>, indicator: &Value) -> (r: Option<usize>)
    requires
        p.len() % 2 == 0,
    ensures
        match r {
            Some(k) => property_from(p@, *indicator, 0) == Some(k as nat) && k + 1 < p.len(),
            None => property_from(p@, *indicator, 0) is None,
        },
{
    let mut k: usize = 0;
    while k < p.len()
        invariant
            k <= p.len(),
            k % 2 == 0,
            p.len() % 2 == 0,
            property_from(p@, *indicator, 0) == property_from(p@, *indicator, k as nat),
        decreases p.len() - k,
    {
        if p[k].eq_value(indicator) {
            return Some(k);
        }
        k = k + 2;
    }
    None
}

/// `REMF` (see `remf_outcome`): `Some` of the list to store when an entry
/// was removed.
pub fn remf_update(current: &Value, indicator: &Value, span: Span) -> (r: Result<Option<Value>, RuntimeError>)
    ensures
        match remf_outcome(*current, *indicator, span) {
            Ok(None) => r matches Ok(None),
            Ok(Some(q)) => r matches Ok(Some(v)) && list_items_of(v) == Some(q),
            Err(f) => r matches Err(e) && reports(e, f),
        },
{
    let p = match current.list_items() {
        Some(p) => p,
        None => {
            return Err(
                RuntimeError::Type {
                    expected: crate::text::owned("LIST"),
                    actual: crate::text::owned(current.kind_name()),
                    span: Some(span),
                },
            );
        },
    };
    if p.len() % 2 != 0 {
        return Err(invalid("REMF needs an even property list", span));
    }
    match find_property(&p, indicator) {
        None => Ok(None),
        Some(k) => {
            let mut kept: Vec<Value> = Vec::new();
            let mut i: usize = 0;
            while i < p.len()
                invariant
                    i <= p.len(),
                    k + 1 < p.len(),
                    kept@ == if i <= k {
                        p@.subrange(0, i as int)
                    } else if i <= k + 2 {
                        p@.subrange(0, k as int)
                    } else {
                        p@.subrange(0, k as int) + p@.subrange(k + 2, i as int)
                    },
                decreases p.len() - i,
            {
                if i < k || i >= k + 2 {
                    kept.push(p[i].clone());
                }
                proof {
                    if i < k {
                        assert(p@.subrange(0, i + 1) =~= p@.subrange(0, i as int).push(p@[i as int]));
                    } else if i >= k + 2 {
                        assert(p@.subrange(k + 2, i + 1) =~= p@.subrange(k + 2, i as int).push(p@[i as int]));
                        assert(p@.subrange(0, k as int) + p@.subrange(k + 2, i + 1) =~= (p@.subrange(0, k as int)
                            + p@.subrange(k + 2, i as int)).push(p@[i as int]));
                    } else if i + 1 == k + 2 {
                        assert(p@.subrange(k + 2, k + 2) =~= Seq::<Value>::empty());
                        assert(p@.subrange(0, k as int) + p@.subrange(k + 2, k + 2) =~= p@.subrange(0, k as int));
                    }
                }
                i = i + 1;
            }
            Ok(Some(Value::list(kept)))
        },
    }
}

/// The same object as one object is the same object as whatever the other
/// one is.
proof fn lemma_same_object_shared(a: Value, b: Value, c: Value)
    requires
        same_object(a, b),
    ensures
        same_object(a, c) == same_object(b, c),
{
}

proof fn lemma_removed_search(p: Seq<Value>, indicator: Value, other: Value, k: nat, j: nat)
    requires
        p.len() % 2 == 0,
        k % 2 == 0,
        j % 2 == 0,
        k + 1 < p.len(),
        same_object(p[k as int], indicator),
        !same_object(indicator, other),
        j <= k,
    ensures
        ({
            let q = p.subrange(0, k as int) + p.subrange(k + 2 as int, p.len() as int);
            match property_from(p, other, j) {
                Some(m) => property_from(q, other, j) == Some(if m < k { m } else { (m - 2) as nat }),
                None => property_from(q, other, j) is None,
            }
        }),
    decreases p.len() - j,
{
    let q = p.subrange(0, k as int) + p.subrange(k + 2 as int, p.len() as int);
    lemma_same_object_shared(p[k as int], indicator, other);
    if j < k {
        assert(q[j as int] == p[j as int]);
        if !same_object(p[j as int], other) {
            lemma_removed_search(p, indicator, other, k, j + 2);
        }
    } else {
        assert(!same_object(p[k as int], other));
        crate::setf::lemma_property_from_bounds(p, other, k + 2);
        lemma_shifted_search(p, other, k, k + 2);
        assert(property_from(p, other, k) == property_from(p, other, k + 2));
    }
}

proof fn lemma_shifted_search(p: Seq<Value>, other: Value, k: nat, j: nat)
    requires
        p.len() % 2 == 0,
        k % 2 == 0,
        j % 2 == 0,
        k + 2 <= j,
        k + 1 < p.len(),
    ensures
        ({
            let q = p.subrange(0, k as int) + p.subrange(k + 2 as int, p.len() as int);
            match property_from(p, other, j) {
                Some(m) => property_from(q, other, (j - 2) as nat) == Some((m - 2) as nat),
                None => property_from(q, other, (j - 2) as nat) is None,
            }
        }),
    decreases p.len() - j,
{
    let q = p.subrange(0, k as int) + p.subrange(k + 2 as int, p.len() as int);
    assert(q.len() == p.len() - 2);
    if j < p.len() {
        assert(q[j - 2] == p[j as int]);
        if !same_object(p[j as int], other) {
            lemma_shifted_search(p, other, k, j + 2);
        }
    }
}

/// Removing the entry for one indicator leaves the value stored under
/// any other indicator as it was.
pub proof fn lemma_remove_keeps_other(p: Seq<Value>, indicator: Value, other: Value)
    requires
        p.len() % 2 == 0,
        !same_object(indicator, other),
    ensures
        remove_property(p, indicator) matches Some(q) ==> crate::setf::property_value(q, other)
            == crate::setf::property_value(p, other),
{
    match property_from(p, indicator, 0) {
        Some(k) => {
            crate::setf::lemma_property_from_bounds(p, indicator, 0);
            lemma_removed_search(p, indicator, other, k, 0);
            let q = p.subrange(0, k as int) + p.subrange(k + 2 as int, p.len() as int);
            match property_from(p, other, 0) {
                Some(m) => {
                    crate::setf::lemma_property_from_bounds(p, other, 0);
                    if m < k {
                        assert(q[m + 1 as int] == p[m + 1 as int]);
                    } else {
                        assert(m != k) by {
                            lemma_same_object_shared(p[k as int], indicator, other);
                        }
                        assert(q[m - 2 + 1 as int] == p[m + 1 as int]);
                    }
                },
                None => {},
            }
        },
        None => {},
    }
}

/// Removing an entry shortens the property list by one entry.
pub proof fn lemma_remove_shortens(p: Seq<Value>, indicator: Value)
    requires
        p.len() % 2 == 0,
    ensures
        remove_property(p, indicator) matches Some(q) ==> q.len() == p.len() - 2 && q.len() % 2 == 0,
{
    if property_from(p, indicator, 0) is Some {
        crate::setf::lemma_property_from_bounds(p, indicator, 0);
    }
}

/// `ROTATEF`: the values stored back, each place taking the value of the
/// place before it and the first taking the last; `None` (nothing is
/// stored) for fewer than two places.
pub fn rotated(values: &Vec<Value>) -> (r: Option<Vec<Value>>)
    ensures
        values.len() < 2 ==> r is None,
        values.len() >= 2 ==> (r matches Some(v) && v@ == seq![values@.last()] + values@.take(values.len() - 1)),
{
    if values.len() < 2 {
        return None;
    }
    let mut out: Vec<Value> = Vec::new();
    out.push(values[values.len() - 1].clone());
    let mut k: usize = 0;
    while k + 1 < values.len()
        invariant
            values.len() >= 2,
            k + 1 <= values.len(),
            out@ == seq![values@.last()] + values@.take(k as int),
        decreases values.len() - k,
    {
        out.push(values[k].clone());
        proof {
            assert(values@.take(k + 1) =~= values@.take(k as int).push(values@[k as int]));
        }
        k = k + 1;
    }
    Some(out)
}

/// After `ROTATEF`, each value sits in the next place, the last one in
/// the first.
pub proof fn lemma_rotation_moves_each(values: Seq<Value>, i: int)
    requires
        values.len() >= 2,
        0 <= i < values.len(),
    ensures
        (seq![values.last()] + values.take(values.len() - 1))[(i + 1) % (values.len() as int)] == values[i],
{
    let n = values.len() as int;
    if i + 1 < n {
        assert((i + 1) % n == i + 1) by (nonlinear_arith)
            requires
                0 <= i + 1 < n,
        ;
    } else {
        assert((i + 1) % n == 0) by (nonlinear_arith)
            requires
                i + 1 == n,
                n > 0,
        ;
    }
}

/// `SHIFTF`: the values stored back, each place taking the value of the
/// place after it and the last the new value, and the result, the first
/// place's old value.
pub fn shifted(old: &Vec<Value>, new_value: Value) -> (r: (Vec<Value>, Value))
    ensures
        r.0@ == rest_of(old@).push(new_value),
        r.1 == first_of(old@),
{
    let mut out: Vec<Value> = Vec::new();
    let mut k: usize = 1;
    while k < old.len()
        invariant
            1 <= k,
            k <= old.len() || old.len() == 0,
            old.len() > 0 ==> out@ == old@.subrange(1, k as int),
            old.len() == 0 ==> out@.len() == 0,
        decreases old.len() - k,
    {
        out.push(old[k].clone());
        proof {
            assert(old@.subrange(1, k + 1) =~= old@.subrange(1, k as int).push(old@[k as int]));
        }
        k = k + 1;
    }
    proof {
        if old.len() > 0 {
            assert(old@.subrange(1, old.len() as int) =~= old@.drop_first());
        } else {
            assert(out@ =~= Seq::<Value>::empty());
        }
    }
    out.push(new_value);
    let first = if old.len() == 0 {
        Value::Nil
    } else {
        old[0].clone()
    };
    (out, first)
}

/// The index `NTH-VALUE` is given: a non-negative integer; a negative one
/// is invalid, anything else a type error.
pub open spec fn nth_value_index_outcome(v: Value, span: Span) -> Result<nat, Failure> {
    match v {
        Value::Integer(i) => if i >= 0 {
            Ok(i as nat)
        } else {
            Err(Failure::Invalid("nth-value index must be non-negative"@, span))
        },
        _ => Err(Failure::Type("INTEGER"@, kind_name_of(v), span)),
    }
}

impl Runtime {
    /// Reads the index of `NTH-VALUE` (see `nth_value_index_outcome`); one
    /// that does not fit in a `usize` is a numeric overflow.
    pub fn nth_value_index(value: &Value, span: Span) -> (r: Result<usize, RuntimeError>)
        ensures
            match nth_value_index_outcome(*value, span) {
                Ok(n) => if n <= usize::MAX {
                    r == Ok::<usize, RuntimeError>(n as usize)
                } else {
                    r matches Err(RuntimeError::NumericOverflow)
                },
                Err(f) => r matches Err(e) && reports(e, f),
            },
    {
        match value {
            Value::Integer(i) => {
                if *i < 0 {
                    Err(invalid("nth-value index must be non-negative", span))
                } else if (*i as u64) > (usize::MAX as u64) {
                    Err(RuntimeError::NumericOverflow)
                } else {
                    Ok(*i as usize)
                }
            },
            _ => Err(
                RuntimeError::Type {
                    expected: crate::text::owned("INTEGER"),
                    actual: crate::text::owned(value.kind_name()),
                    span: Some(span),
                },
            ),
        }
    }
}

/// The `index`-th of several values, or `NIL` past the last; also what
/// `MULTIPLE-VALUE-SETQ` stores in its `index`-th variable.
pub fn nth_value_of(values: &Vec<Value>, index: usize) -> (r: Value)
    ensures
        r == if index < values.len() {
            values@[index as int]
        } else {
            Value::Nil
        },
{
    if index < values.len() {
        values[index].clone()
    } else {
        Value::Nil
    }
}

} // verus!
