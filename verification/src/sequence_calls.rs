//! The sequence functions that call user functions: `REMOVE`,
//! `SUBSTITUTE`, `FIND`/`POSITION`/`COUNT` and `MERGE`. The test, key and
//! predicate are functions the evaluator resolved from their designators
//! (`EQL` when no test is given, see `test_designator`); `apply` calls one
//! on a list of arguments and gives its primary value. The contracts say
//! which calls are made, with which arguments in which order, and what is
//! built from the answers.
use vstd::prelude::*;
use crate::error::{invalid, is_invalid, RuntimeError};
use crate::sequence_edits::{
    dedup_before, duplicate_decided, answered_distinct, answered_duplicate, count_marked, kept_by, rebuilt_sequence, replaced_by, selection, SequenceItems,
};
use crate::runtime::Runtime;
use crate::syntax::Span;
use crate::text::owned;
use crate::value::{truthy, Value};

verus! {

broadcast use vstd::std_specs::vec::group_vec_axioms;

/// `apply` answered `r` for the function `h` on the arguments `args`.
pub open spec fn applied<H, A: Fn(&H, &Vec<Value>) -> Result<Value, RuntimeError>>(
    apply: A,
    h: H,
    args: Seq<Value>,
    r: Result<Value, RuntimeError>,
) -> bool {
    exists|v: Vec<Value>| #[trigger] apply.ensures((&h, &v), r) && v@ == args
}

/// The key of `x`: `x` itself without a key function, else what the key
/// function answered on `x`.
pub open spec fn key_of<H, A: Fn(&H, &Vec<Value>) -> Result<Value, RuntimeError>>(
    apply: A,
    key: Option<H>,
    x: Value,
    k: Value,
) -> bool {
    match key {
        None => k == x,
        Some(h) => applied(apply, h, seq![x], Ok(k)),
    }
}

/// The test answered `b` (the truth of its value) on `args`.
pub open spec fn test_answer<H, A: Fn(&H, &Vec<Value>) -> Result<Value, RuntimeError>>(
    apply: A,
    test: H,
    args: Seq<Value>,
    b: bool,
) -> bool {
    exists|v: Value| #[trigger] applied(apply, test, args, Ok(v)) && b == truthy(v)
}

/// The arguments of the test on a key: the key alone for the `-IF`
/// forms, else the item first and the key second.
pub open spec fn test_args(is_predicate: bool, item: Value, k: Value) -> Seq<Value> {
    if is_predicate {
        seq![k]
    } else {
        seq![item, k]
    }
}

/// Whether element `x` matches: its key `k`, the test called on
/// `test_args(.., k)`, its answer inverted for `:test-not` and `-IF-NOT`.
pub open spec fn element_matches<H, A: Fn(&H, &Vec<Value>) -> Result<Value, RuntimeError>>(
    apply: A,
    test: H,
    key: Option<H>,
    is_predicate: bool,
    item: Value,
    invert: bool,
    x: Value,
    m: bool,
) -> bool {
    exists|k: Value, b: bool|
        #![trigger key_of(apply, key, x, k), test_answer(apply, test, test_args(is_predicate, item, k), b)]
        key_of(apply, key, x, k) && test_answer(apply, test, test_args(is_predicate, item, k), b) && m == (b
            != invert)
}

/// The match marks of a range: false outside `[start, end)`, what the
/// calls answered inside.
pub open spec fn range_marks<H, A: Fn(&H, &Vec<Value>) -> Result<Value, RuntimeError>>(
    apply: A,
    test: H,
    key: Option<H>,
    is_predicate: bool,
    item: Value,
    invert: bool,
    xs: Seq<Value>,
    start: int,
    end: int,
    m: Seq<bool>,
) -> bool {
    &&& m.len() == xs.len()
    &&& forall|i: int| 0 <= i < xs.len() && !(start <= i < end) ==> !m[i]
    &&& forall|i: int|
        start <= i < end ==> #[trigger] element_matches(apply, test, key, is_predicate, item, invert, xs[i], m[i])
}

/// The key function failed with `e` on `x`.
pub open spec fn key_failed<H, A: Fn(&H, &Vec<Value>) -> Result<Value, RuntimeError>>(
    apply: A,
    key: Option<H>,
    x: Value,
    e: RuntimeError,
) -> bool {
    match key {
        Some(h) => applied(apply, h, seq![x], Err(e)),
        None => false,
    }
}

/// The key or, after it, the test failed with `e` on element `x`.
pub open spec fn element_failed<H, A: Fn(&H, &Vec<Value>) -> Result<Value, RuntimeError>>(
    apply: A,
    test: H,
    key: Option<H>,
    is_predicate: bool,
    item: Value,
    x: Value,
    e: RuntimeError,
) -> bool {
    key_failed(apply, key, x, e) || exists|k: Value|
        key_of(apply, key, x, k) && #[trigger] applied(apply, test, test_args(is_predicate, item, k), Err(e))
}

/// A call on an element of `[start, end)` failed with `e`.
pub open spec fn call_failed<H, A: Fn(&H, &Vec<Value>) -> Result<Value, RuntimeError>>(
    apply: A,
    test: H,
    key: Option<H>,
    is_predicate: bool,
    item: Value,
    xs: Seq<Value>,
    start: int,
    end: int,
    e: RuntimeError,
) -> bool {
    exists|i: int| start <= i < end && #[trigger] element_failed(apply, test, key, is_predicate, item, xs[i], e)
}

/// Calls the key function, if any, on `x`.
fn call_key<H, A: Fn(&H, &Vec<Value>) -> Result<Value, RuntimeError>>(key: &Option<H>, x: &Value, apply: &A) -> (r:
    Result<Value, RuntimeError>)
    requires
        forall|h: &H, args: &Vec<Value>| apply.requires((h, args)),
    ensures
        r matches Ok(k) ==> key_of(*apply, *key, *x, k),
        r matches Err(e) ==> key_failed(*apply, *key, *x, e),
{
    match key {
        None => Ok(x.clone()),
        Some(h) => {
            let mut args: Vec<Value> = Vec::new();
            args.push(x.clone());
            assert(args@ =~= seq![*x]);
            let r = apply(h, &args);
            assert(apply.ensures((h, &args), r));
            r
        },
    }
}

/// Calls the test on `args` and takes the truth of its value.
fn call_test<H, A: Fn(&H, &Vec<Value>) -> Result<Value, RuntimeError>>(test: &H, args: &Vec<Value>, apply: &A) -> (r:
    Result<bool, RuntimeError>)
    requires
        forall|h: &H, a: &Vec<Value>| apply.requires((h, a)),
    ensures
        r matches Ok(b) ==> test_answer(*apply, *test, args@, b),
        r matches Err(e) ==> applied(*apply, *test, args@, Err(e)),
{
    let r = apply(test, args);
    assert(apply.ensures((test, args), r));
    match r {
        Ok(v) => {
            let b = v.is_truthy();
            assert(applied(*apply, *test, args@, Ok(v)));
            Ok(b)
        },
        Err(e) => Err(e),
    }
}

/// The arguments of the test on a key (see `test_args`).
fn arguments_for(is_predicate: bool, item: &Value, k: Value) -> (r: Vec<Value>)
    ensures
        r@ == test_args(is_predicate, *item, k),
{
    let mut args: Vec<Value> = Vec::new();
    if !is_predicate {
        args.push(item.clone());
    }
    args.push(k);
    assert(args@ =~= test_args(is_predicate, *item, k));
    args
}

/// Marks the elements of `[start, end)` that match, in ascending order:
/// for each, the key is called, then the test (see `element_matches`).
/// The first error a call returns ends the scan and is returned.
pub fn match_range<H, A: Fn(&H, &Vec<Value>) -> Result<Value, RuntimeError>>(
    items: &Vec<Value>,
    start: usize,
    end: usize,
    is_predicate: bool,
    item: &Value,
    invert: bool,
    test: &H,
    key: &Option<H>,
    apply: &A,
) -> (r: Result<Vec<bool>, RuntimeError>)
    requires
        start <= end <= items.len(),
        forall|h: &H, args: &Vec<Value>| apply.requires((h, args)),
    ensures
        r matches Ok(m) ==> range_marks(
            *apply,
            *test,
            *key,
            is_predicate,
            *item,
            invert,
            items@,
            start as int,
            end as int,
            m@,
        ),
        r matches Err(e) ==> call_failed(*apply, *test, *key, is_predicate, *item, items@, start as int, end as int, e),
{
    let mut m: Vec<bool> = Vec::new();
    let mut i: usize = 0;
    while i < items.len()
        invariant
            start <= end <= items.len(),
            i <= items.len(),
            m.len() == i,
            forall|h: &H, args: &Vec<Value>| apply.requires((h, args)),
            forall|j: int| 0 <= j < i && !(start <= j < end) ==> !m@[j],
            forall|j: int|
                start <= j < i && j < end ==> #[trigger] element_matches(
                    *apply,
                    *test,
                    *key,
                    is_predicate,
                    *item,
                    invert,
                    items@[j],
                    m@[j],
                ),
        decreases items.len() - i,
    {
        if i < start || i >= end {
            m.push(false);
        } else {
            let k = match call_key(key, &items[i], apply) {
                Ok(k) => k,
                Err(e) => {
                    assert(element_failed(*apply, *test, *key, is_predicate, *item, items@[i as int], e));
                    return Err(e);
                },
            };
            let args = arguments_for(is_predicate, item, k);
            match call_test(test, &args, apply) {
                Ok(b) => {
                    let mark = b != invert;
                    assert(element_matches(*apply, *test, *key, is_predicate, *item, invert, items@[i as int], mark));
                    m.push(mark);
                },
                Err(e) => {
                    assert(applied(*apply, *test, test_args(is_predicate, *item, k), Err(e)));
                    assert(element_failed(*apply, *test, *key, is_predicate, *item, items@[i as int], e));
                    return Err(e);
                },
            }
        }
        i = i + 1;
    }
    Ok(m)
}

/// The designator of the test the evaluator resolves: the predicate of
/// the `-IF` forms, else `:test` or `:test-not`, else the symbol `EQL`.
pub fn test_designator(is_predicate: bool, item: &Value, test: &Option<Value>, test_not: &Option<Value>) -> (r: Value)
    ensures
        is_predicate ==> r == *item,
        !is_predicate ==> match (*test, *test_not) {
            (Some(t), _) => r == t,
            (None, Some(t)) => r == t,
            (None, None) => r matches Value::Symbol(s) && s@ == "EQL"@,
        },
{
    if is_predicate {
        item.clone()
    } else {
        match test {
            Some(t) => t.clone(),
            None => match test_not {
                Some(t) => t.clone(),
                None => Value::Symbol(owned("EQL")),
            },
        }
    }
}

/// The end of `[start, end)` in a sequence of `len` elements.
pub open spec fn range_end(end: Option<usize>, len: nat) -> int {
    match end {
        Some(x) => x as int,
        None => len as int,
    }
}

/// What an edit of `[start, end)` of `xs` gives once the marks are known:
/// either the sequence `edited` builds from some marks that the calls
/// answered, or the error of a call.
pub open spec fn edited_by<H, A: Fn(&H, &Vec<Value>) -> Result<Value, RuntimeError>>(
    apply: A,
    test: H,
    key: Option<H>,
    is_predicate: bool,
    item: Value,
    invert: bool,
    xs: Seq<Value>,
    start: int,
    end: int,
    count: Option<usize>,
    from_end: bool,
    kind: crate::sequence_options::SequenceKind,
    substitute: Option<Value>,
    span: Span,
    r: Result<Value, RuntimeError>,
) -> bool {
    ||| exists|m: Seq<bool>|
        #[trigger] range_marks(apply, test, key, is_predicate, item, invert, xs, start, end, m) && rebuilt_sequence(
            kind,
            match substitute {
                None => kept_by(xs, selection(m, start, end, count, from_end)),
                Some(n) => replaced_by(xs, selection(m, start, end, count, from_end), n),
            },
            span,
            r,
        )
    ||| (r matches Err(err) && call_failed(apply, test, key, is_predicate, item, xs, start, end, err))
}

impl Runtime {
    /// `REMOVE`, `DELETE` and their `-IF` and `-IF-NOT` forms, once the
    /// options are read and the test and key resolved: the elements of
    /// `[start, end)` are keyed and tested in ascending order (see
    /// `match_range`); of the matches, the first `count` (the last ones
    /// `from_end`) are dropped; the rest keep their order and the sequence
    /// its kind. Bounds that do not fit are invalid.
    pub fn apply_sequence_remove<H, A: Fn(&H, &Vec<Value>) -> Result<Value, RuntimeError>>(
        is_predicate: bool,
        item: &Value,
        sequence: &Value,
        start: usize,
        end: Option<usize>,
        count: Option<usize>,
        from_end: bool,
        invert: bool,
        test: &H,
        key: &Option<H>,
        apply: A,
        span: Span,
    ) -> (r: Result<Value, RuntimeError>)
        requires
            forall|h: &H, args: &Vec<Value>| apply.requires((h, args)),
        ensures
            match crate::sequence_edits::kind_of(*sequence) {
                None => r matches Err(e) && crate::error::is_type_error(
                    e,
                    "SEQUENCE"@,
                    crate::value::kind_name_of(*sequence),
                    span,
                ),
                Some(kind) => if !(start <= range_end(end, crate::setf::elements(*sequence).len())
                    <= crate::setf::elements(*sequence).len()) {
                    r matches Err(err) && is_invalid(err, "sequence removal bounds are invalid"@, span)
                } else {
                    edited_by(
                        apply,
                        *test,
                        *key,
                        is_predicate,
                        *item,
                        invert,
                        crate::setf::elements(*sequence),
                        start as int,
                        range_end(end, crate::setf::elements(*sequence).len()),
                        count,
                        from_end,
                        kind,
                        None,
                        span,
                        r,
                    )
                },
            },
    {
        let items = SequenceItems::from_value(sequence, span)?;
        proof {
            crate::setf::lemma_elements_unique(*sequence, items.values@, crate::setf::elements(*sequence));
        }
        let stop = crate::sequence_edits::sequence_bounds(start, end, items.values.len(), "sequence removal bounds are invalid", span)?;
        assert(items.values@ == crate::setf::elements(*sequence));
        let marks = match match_range(&items.values, start, stop, is_predicate, item, invert, test, key, &apply) {
            Ok(m) => m,
            Err(e) => return Err(e),
        };
        let ghost m = marks@;
        let ghost xs = items.values@;
        let ghost kind = items.kind;
        let r = Runtime::sequence_remove_result(items, start, stop, count, from_end, &marks, sequence, span);
        assert(xs == crate::setf::elements(*sequence));
        let ghost e: int = match end {
            Some(x) => x as int,
            None => xs.len() as int,
        };
        assert(e == stop as int);
        assert(range_marks(apply, *test, *key, is_predicate, *item, invert, xs, start as int, stop as int, m));
        assert(rebuilt_sequence(kind, kept_by(xs, selection(m, start as int, stop as int, count, from_end)), span, r));

        r
    }

    /// `SUBSTITUTE`, `NSUBSTITUTE` and their `-IF` and `-IF-NOT` forms,
    /// once the options are read and the test and key resolved: the
    /// elements of `[start, end)` are keyed and tested on `old` in
    /// ascending order (see `match_range`); of the matches, the first
    /// `count` (the last ones `from_end`) become `new`. A string takes only
    /// a character as `new`; bounds that do not fit are invalid.
    pub fn apply_sequence_substitute<H, A: Fn(&H, &Vec<Value>) -> Result<Value, RuntimeError>>(
        is_predicate: bool,
        new_item: &Value,
        old_item: &Value,
        sequence: &Value,
        start: usize,
        end: Option<usize>,
        count: Option<usize>,
        from_end: bool,
        invert: bool,
        test: &H,
        key: &Option<H>,
        apply: A,
        span: Span,
    ) -> (r: Result<Value, RuntimeError>)
        requires
            forall|h: &H, args: &Vec<Value>| apply.requires((h, args)),
        ensures
            match crate::sequence_edits::kind_of(*sequence) {
                None => r matches Err(e) && crate::error::is_type_error(
                    e,
                    "SEQUENCE"@,
                    crate::value::kind_name_of(*sequence),
                    span,
                ),
                Some(kind) => if kind == crate::sequence_options::SequenceKind::String && !(*new_item is Character) {
                    r matches Err(err) && crate::error::is_type_error(
                        err,
                        "CHARACTER"@,
                        crate::value::kind_name_of(*new_item),
                        span,
                    )
                } else if !(start <= range_end(end, crate::setf::elements(*sequence).len())
                    <= crate::setf::elements(*sequence).len()) {
                    r matches Err(err) && is_invalid(err, "sequence substitution bounds are invalid"@, span)
                } else {
                    edited_by(
                        apply,
                        *test,
                        *key,
                        is_predicate,
                        *old_item,
                        invert,
                        crate::setf::elements(*sequence),
                        start as int,
                        range_end(end, crate::setf::elements(*sequence).len()),
                        count,
                        from_end,
                        kind,
                        Some(*new_item),
                        span,
                        r,
                    )
                },
            },
    {
        let items = SequenceItems::from_value(sequence, span)?;
        proof {
            crate::setf::lemma_elements_unique(*sequence, items.values@, crate::setf::elements(*sequence));
        }
        Runtime::substitution_item_check(items.kind, new_item, span)?;
        let stop = crate::sequence_edits::sequence_bounds(
            start,
            end,
            items.values.len(),
            "sequence substitution bounds are invalid",
            span,
        )?;
        assert(items.values@ == crate::setf::elements(*sequence));
        let marks = match match_range(&items.values, start, stop, is_predicate, old_item, invert, test, key, &apply) {
            Ok(m) => m,
            Err(e) => return Err(e),
        };
        let ghost m = marks@;
        let ghost xs = items.values@;
        let ghost kind = items.kind;
        let r = Runtime::sequence_substitute_result(items, new_item, start, stop, count, from_end, &marks, sequence, span);
        assert(xs == crate::setf::elements(*sequence));
        let ghost e: int = match end {
            Some(x) => x as int,
            None => xs.len() as int,
        };
        assert(e == stop as int);
        assert(range_marks(apply, *test, *key, is_predicate, *old_item, invert, xs, start as int, stop as int, m));
        assert(rebuilt_sequence(kind, replaced_by(xs, selection(m, start as int, stop as int, count, from_end), *new_item), span, r));
        r
    }
}

/// Whether position `j` is scanned before position `i` by a search of
/// `[start, end)`: from the front, or from the end.
pub open spec fn search_before(start: int, end: int, from_end: bool, j: int, i: int) -> bool {
    &&& start <= j < end
    &&& if from_end {
        j > i
    } else {
        j < i
    }
}

/// What `FIND`, `POSITION` or `COUNT` gives when its calls answered: the
/// first element in scan order whose key the test accepted on
/// `(item, key)` (its position for `POSITION`), `NIL` when there is none,
/// or the number of elements accepted.
pub open spec fn search_found<H, A: Fn(&H, &Vec<Value>) -> Result<Value, RuntimeError>>(
    op: Seq<char>,
    apply: A,
    test: H,
    key: Option<H>,
    item: Value,
    invert: bool,
    xs: Seq<Value>,
    start: int,
    end: int,
    from_end: bool,
    v: Value,
) -> bool {
    if op == "COUNT"@ {
        exists|m: Seq<bool>|
            #[trigger] range_marks(apply, test, key, false, item, invert, xs, start, end, m) && v == Value::Integer(
                count_marked(m, start, end) as i64,
            )
    } else {
        ||| (v == Value::Nil && forall|i: int|
            start <= i < end ==> #[trigger] element_matches(apply, test, key, false, item, invert, xs[i], false))
        ||| exists|i: int|
            start <= i < end && #[trigger] element_matches(apply, test, key, false, item, invert, xs[i], true)
                && (forall|j: int|
                search_before(start, end, from_end, j, i) ==> element_matches(
                    apply,
                    test,
                    key,
                    false,
                    item,
                    invert,
                    xs[j],
                    false,
                )) && v == if op == "FIND"@ {
                xs[i]
            } else {
                Value::Integer(i as i64)
            }
    }
}

/// Whether an operation is one of the searches.
pub open spec fn is_search(op: Seq<char>) -> bool {
    op == "FIND"@ || op == "POSITION"@ || op == "COUNT"@
}

proof fn lemma_count_mark(m: Seq<bool>, a: int, b: int, i: int)
    requires
        0 <= a <= i < b <= m.len(),
        !m[i],
    ensures
        count_marked(m.update(i, true), a, b) == count_marked(m, a, b) + 1,
    decreases b - a,
{
    let n = m.update(i, true);
    if b - 1 == i {
        lemma_count_same(m, n, a, i);
    } else {
        lemma_count_mark(m, a, b - 1, i);
    }
}

proof fn lemma_count_same(m: Seq<bool>, n: Seq<bool>, a: int, b: int)
    requires
        forall|k: int| a <= k < b ==> m[k] == n[k],
    ensures
        count_marked(m, a, b) == count_marked(n, a, b),
    decreases b - a,
{
    if a < b {
        lemma_count_same(m, n, a, b - 1);
    }
}

proof fn lemma_count_none(m: Seq<bool>, a: int, b: int)
    requires
        forall|k: int| a <= k < b ==> !m[k],
    ensures
        count_marked(m, a, b) == 0,
    decreases b - a,
{
    if a < b {
        lemma_count_none(m, a, b - 1);
    }
}

proof fn lemma_count_bound(m: Seq<bool>, a: int, b: int)
    requires
        a <= b,
    ensures
        count_marked(m, a, b) <= b - a,
    decreases b - a,
{
    if a < b {
        lemma_count_bound(m, a, b - 1);
    }
}

impl Runtime {
    /// `FIND`, `POSITION` and `COUNT`, once the options are read and the
    /// test and key resolved: the elements of `[start, end)` are visited in
    /// order (from the end with `from_end`); for each, the key is called,
    /// then the test on `(item, key)` (see `search_found`). An operation
    /// that is none of them is invalid, reported at the first match or
    /// the end of the scan; bounds that do not fit are invalid.
    pub fn apply_sequence_search<H, A: Fn(&H, &Vec<Value>) -> Result<Value, RuntimeError>>(
        operation: &str,
        item: &Value,
        sequence: &Value,
        start: usize,
        end: Option<usize>,
        from_end: bool,
        invert: bool,
        test: &H,
        key: &Option<H>,
        apply: A,
        span: Span,
    ) -> (r: Result<Value, RuntimeError>)
        requires
            forall|h: &H, args: &Vec<Value>| apply.requires((h, args)),
            crate::setf::elements(*sequence).len() <= i64::MAX,
        ensures
            match crate::sequence_edits::kind_of(*sequence) {
                None => r matches Err(e) && crate::error::is_type_error(
                    e,
                    "SEQUENCE"@,
                    crate::value::kind_name_of(*sequence),
                    span,
                ),
                Some(kind) => if !(start <= range_end(end, crate::setf::elements(*sequence).len())
                    <= crate::setf::elements(*sequence).len()) {
                    r matches Err(err) && is_invalid(err, "sequence search bounds are invalid"@, span)
                } else {
                    &&& r matches Ok(v) ==> is_search(operation@) && search_found(
                        operation@,
                        apply,
                        *test,
                        *key,
                        *item,
                        invert,
                        crate::setf::elements(*sequence),
                        start as int,
                        range_end(end, crate::setf::elements(*sequence).len()),
                        from_end,
                        v,
                    )
                    &&& r matches Err(err) ==> (!is_search(operation@) && is_invalid(
                        err,
                        "unknown sequence search operation"@,
                        span,
                    )) || call_failed(
                        apply,
                        *test,
                        *key,
                        false,
                        *item,
                        crate::setf::elements(*sequence),
                        start as int,
                        range_end(end, crate::setf::elements(*sequence).len()),
                        err,
                    )
                },
            },
    {
        let items = SequenceItems::from_value(sequence, span)?;
        proof {
            crate::setf::lemma_elements_unique(*sequence, items.values@, crate::setf::elements(*sequence));
        }
        let stop = crate::sequence_edits::sequence_bounds(start, end, items.values.len(), "sequence search bounds are invalid", span)?;
        let ghost xs = items.values@;
        assert(xs == crate::setf::elements(*sequence));
        let ghost e: int = match end {
            Some(x) => x as int,
            None => xs.len() as int,
        };
        assert(e == stop as int);
        proof {
            reveal_strlit("FIND");
            reveal_strlit("POSITION");
            reveal_strlit("COUNT");
            assert("FIND"@.len() == 4 && "POSITION"@.len() == 8 && "COUNT"@.len() == 5);
        }
        let op = crate::text::chars_of(operation);
        let find = crate::text::text_is(&op, "FIND");
        let position = crate::text::text_is(&op, "POSITION");
        let counting = crate::text::text_is(&op, "COUNT");
        let mut m: Vec<bool> = Vec::new();
        let mut z: usize = 0;
        while z < items.values.len()
            invariant
                z <= items.values.len(),
                m.len() == z,
                forall|j: int| 0 <= j < z ==> !m@[j],
            decreases items.values.len() - z,
        {
            m.push(false);
            z = z + 1;
        }
        proof {
            lemma_count_none(m@, start as int, stop as int);
        }
        let mut count: usize = 0;
        let mut q: usize = 0;
        while q < stop - start
            invariant
                start <= stop <= items.values.len(),
                xs == items.values@,
                xs == crate::setf::elements(*sequence),
                crate::sequence_edits::kind_of(*sequence) == Some(items.kind),
                stop as int == range_end(end, xs.len()),
                xs.len() <= i64::MAX,
                find == (op@ == "FIND"@),
                position == (op@ == "POSITION"@),
                counting == (op@ == "COUNT"@),
                find ==> !counting,
                position ==> !counting,
                op@ == operation@,
                q <= stop - start,
                m.len() == xs.len(),
                forall|h: &H, args: &Vec<Value>| apply.requires((h, args)),
                forall|x: int| 0 <= x < xs.len() && !(start <= x < stop) ==> !m@[x],
                forall|x: int|
                    start <= x < stop && !(if from_end {
                        x >= stop - q
                    } else {
                        x < start + q
                    }) ==> !m@[x],
                forall|x: int|
                    #![trigger xs[x]]
                    start <= x < stop && (if from_end {
                        x >= stop - q
                    } else {
                        x < start + q
                    }) ==> element_matches(apply, *test, *key, false, *item, invert, xs[x], m@[x]),
                (find || position) ==> forall|x: int| 0 <= x < xs.len() ==> !m@[x],
                count == count_marked(m@, start as int, stop as int),
            decreases stop - start - q,
        {
            let i: usize = if from_end {
                stop - 1 - q
            } else {
                start + q
            };
            let k = match call_key(key, &items.values[i], &apply) {
                Ok(k) => k,
                Err(e) => {
                    assert(element_failed(apply, *test, *key, false, *item, xs[i as int], e));
                    assert(start <= i < stop);
                    return Err(e);
                },
            };
            let args = arguments_for(false, item, k);
            let b = match call_test(test, &args, &apply) {
                Ok(b) => b,
                Err(e) => {
                    assert(applied(apply, *test, test_args(false, *item, k), Err(e)));
                    assert(element_failed(apply, *test, *key, false, *item, xs[i as int], e));
                    assert(start <= i < stop);
                    return Err(e);
                },
            };
            let hit = b != invert;
            assert(element_matches(apply, *test, *key, false, *item, invert, xs[i as int], hit));
            if hit {
                if find || position {
                    proof {
                        assert forall|j: int| search_before(start as int, stop as int, from_end, j, i as int) implies element_matches(
                            apply,
                            *test,
                            *key,
                            false,
                            *item,
                            invert,
                            xs[j],
                            false,
                        ) by {
                            assert(!m@[j]);
                        }
                    }
                    if find {
                        return Ok(items.values[i].clone());
                    } else {
                        return Ok(Value::Integer(i as i64));
                    }
                } else if counting {
                    proof {
                        lemma_count_mark(m@, start as int, stop as int, i as int);
                        lemma_count_bound(m@.update(i as int, true), start as int, stop as int);
                    }
                    m.set(i, true);
                    count = count + 1;
                } else {
                    return Err(invalid("unknown sequence search operation", span));
                }
            }
            q = q + 1;
        }
        if find || position {
            assert(forall|x: int| start <= x < stop ==> #[trigger] element_matches(apply, *test, *key, false, *item, invert, xs[x], false));
            assert(is_search(operation@));
            assert(operation@ != "COUNT"@);
            assert(search_found(operation@, apply, *test, *key, *item, invert, xs, start as int, stop as int, from_end, Value::Nil));
            Ok(Value::Nil)
        } else if counting {
            proof {
                lemma_count_bound(m@, start as int, stop as int);
                assert(range_marks(apply, *test, *key, false, *item, invert, xs, start as int, stop as int, m@));
            }
            assert(search_found(operation@, apply, *test, *key, *item, invert, xs, start as int, stop as int, from_end, Value::Integer(count as i64)));
            Ok(Value::Integer(count as i64))
        } else {
            assert(!is_search(operation@));
            Err(invalid("unknown sequence search operation", span))
        }
    }
}

/// The keys of `xs`, one for each element, in order (see `key_of`).
pub open spec fn keys_of<H, A: Fn(&H, &Vec<Value>) -> Result<Value, RuntimeError>>(
    apply: A,
    key: Option<H>,
    xs: Seq<Value>,
    ks: Seq<Value>,
) -> bool {
    &&& ks.len() == xs.len()
    &&& forall|j: int| 0 <= j < xs.len() ==> #[trigger] key_of(apply, key, xs[j], ks[j])
}

/// The key function failed with `e` on some element of `xs`.
pub open spec fn some_key_failed<H, A: Fn(&H, &Vec<Value>) -> Result<Value, RuntimeError>>(
    apply: A,
    key: Option<H>,
    xs: Seq<Value>,
    e: RuntimeError,
) -> bool {
    exists|j: int| 0 <= j < xs.len() && #[trigger] key_failed(apply, key, xs[j], e)
}

/// `m` is what merging `xs1[i..]` with `xs2[j..]` gives when the predicate
/// is called, at each step, on `(next key of the second, next key of the
/// first)`: the second's element comes first when it answered true, the
/// first's when it answered false (so ties keep the first sequence's
/// element first); once one sequence is used up the rest of the other
/// follows.
pub open spec fn merged_with<H, A: Fn(&H, &Vec<Value>) -> Result<Value, RuntimeError>>(
    apply: A,
    predicate: H,
    xs1: Seq<Value>,
    ks1: Seq<Value>,
    xs2: Seq<Value>,
    ks2: Seq<Value>,
    i: int,
    j: int,
    m: Seq<Value>,
) -> bool
    decreases (xs1.len() - i) + (xs2.len() - j),
{
    if i < 0 || j < 0 || i > xs1.len() || j > xs2.len() {
        false
    } else if i == xs1.len() {
        m == xs2.skip(j)
    } else if j == xs2.len() {
        m == xs1.skip(i)
    } else if m.len() == 0 {
        false
    } else {
        ||| (test_answer(apply, predicate, seq![ks2[j], ks1[i]], true) && m[0] == xs2[j] && merged_with(
            apply,
            predicate,
            xs1,
            ks1,
            xs2,
            ks2,
            i,
            j + 1,
            m.drop_first(),
        ))
        ||| (test_answer(apply, predicate, seq![ks2[j], ks1[i]], false) && m[0] == xs1[i] && merged_with(
            apply,
            predicate,
            xs1,
            ks1,
            xs2,
            ks2,
            i + 1,
            j,
            m.drop_first(),
        ))
    }
}

/// The result `MERGE` builds of kind `kind` (`NIL`, `LIST`, `VECTOR` or
/// `STRING`) from the merged elements `m`.
pub open spec fn merge_built(kind: Seq<char>, m: Seq<Value>, span: Span, r: Result<Value, RuntimeError>) -> bool {
    if kind == "NIL"@ {
        r == Ok::<Value, RuntimeError>(Value::Nil)
    } else if kind == "LIST"@ {
        if m.len() == 0 {
            r == Ok::<Value, RuntimeError>(Value::Nil)
        } else {
            r matches Ok(Value::List(v)) && v@ == m
        }
    } else if kind == "VECTOR"@ {
        r matches Ok(Value::Vector(v)) && v@ == m
    } else {
        match crate::sequence_options::text_of_values(m) {
            Ok(cs) => r matches Ok(Value::String(t)) && t@ == cs,
            Err(v) => r matches Err(e) && crate::error::is_type_error(e, "CHARACTER"@, crate::value::kind_name_of(v), span),
        }
    }
}

/// What `MERGE` gives once its calls answered: the keys of both
/// sequences, the merge those answers decide, and the result built of it.
pub open spec fn merge_outcome<H, A: Fn(&H, &Vec<Value>) -> Result<Value, RuntimeError>>(
    apply: A,
    predicate: H,
    key: Option<H>,
    kind: Seq<char>,
    xs1: Seq<Value>,
    xs2: Seq<Value>,
    span: Span,
    r: Result<Value, RuntimeError>,
) -> bool {
    exists|ks1: Seq<Value>, ks2: Seq<Value>, m: Seq<Value>|
        #[trigger] merged_with(apply, predicate, xs1, ks1, xs2, ks2, 0, 0, m) && keys_of(apply, key, xs1, ks1)
            && keys_of(apply, key, xs2, ks2) && merge_built(kind, m, span, r)
}

/// A call of `MERGE` failed with `e`: the key function on an element of
/// either sequence, or the predicate on a pair of keys.
pub open spec fn merge_call_failed<H, A: Fn(&H, &Vec<Value>) -> Result<Value, RuntimeError>>(
    apply: A,
    predicate: H,
    key: Option<H>,
    xs1: Seq<Value>,
    xs2: Seq<Value>,
    e: RuntimeError,
) -> bool {
    ||| some_key_failed(apply, key, xs1, e)
    ||| some_key_failed(apply, key, xs2, e)
    ||| exists|a: Value, b: Value| #[trigger] pair_failed(apply, predicate, a, b, e)
}

/// The predicate failed with `e` on `(a, b)`.
pub open spec fn pair_failed<H, A: Fn(&H, &Vec<Value>) -> Result<Value, RuntimeError>>(
    apply: A,
    predicate: H,
    a: Value,
    b: Value,
    e: RuntimeError,
) -> bool {
    applied(apply, predicate, seq![a, b], Err(e))
}

/// Calls the key function, if any, on each element of `xs` in order.
fn keys_for<H, A: Fn(&H, &Vec<Value>) -> Result<Value, RuntimeError>>(key: &Option<H>, xs: &Vec<Value>, apply: &A) -> (r:
    Result<Vec<Value>, RuntimeError>)
    requires
        forall|h: &H, args: &Vec<Value>| apply.requires((h, args)),
    ensures
        r matches Ok(ks) ==> keys_of(*apply, *key, xs@, ks@),
        r matches Err(e) ==> some_key_failed(*apply, *key, xs@, e),
{
    let mut ks: Vec<Value> = Vec::new();
    let mut i: usize = 0;
    while i < xs.len()
        invariant
            i <= xs.len(),
            ks.len() == i,
            forall|h: &H, args: &Vec<Value>| apply.requires((h, args)),
            forall|j: int| 0 <= j < i ==> #[trigger] key_of(*apply, *key, xs@[j], ks@[j]),
        decreases xs.len() - i,
    {
        match call_key(key, &xs[i], apply) {
            Ok(k) => ks.push(k),
            Err(e) => {
                assert(key_failed(*apply, *key, xs@[i as int], e));
                return Err(e);
            },
        }
        i = i + 1;
    }
    Ok(ks)
}

/// What `merge_keyed` decided through a predicate that answers as the
/// test does is a merge by the test's answers.
proof fn lemma_merged_with<H, A: Fn(&H, &Vec<Value>) -> Result<Value, RuntimeError>, P: Fn(
    &Value,
    &Value,
) -> Result<bool, RuntimeError>>(
    apply: A,
    predicate: H,
    precedes: P,
    xs1: Seq<Value>,
    ks1: Seq<Value>,
    xs2: Seq<Value>,
    ks2: Seq<Value>,
    i: int,
    j: int,
    m: Seq<Value>,
)
    requires
        forall|a: &Value, b: &Value, x: bool|
            #[trigger] precedes.ensures((a, b), Ok::<bool, RuntimeError>(x)) ==> test_answer(
                apply,
                predicate,
                seq![*a, *b],
                x,
            ),
        crate::sequence_order::merged_by(precedes, xs1, ks1, xs2, ks2, i, j, m),
    ensures
        merged_with(apply, predicate, xs1, ks1, xs2, ks2, i, j, m),
    decreases (xs1.len() - i) + (xs2.len() - j),
{
    if i < 0 || j < 0 || i > xs1.len() || j > xs2.len() || i == xs1.len() || j == xs2.len() || m.len() == 0 {
    } else if precedes.ensures((&ks2[j], &ks1[i]), Ok::<bool, RuntimeError>(true)) && m[0] == xs2[j]
        && crate::sequence_order::merged_by(precedes, xs1, ks1, xs2, ks2, i, j + 1, m.drop_first()) {
        lemma_merged_with(apply, predicate, precedes, xs1, ks1, xs2, ks2, i, j + 1, m.drop_first());
    } else {
        lemma_merged_with(apply, predicate, precedes, xs1, ks1, xs2, ks2, i + 1, j, m.drop_first());
    }
}

impl Runtime {
    /// `MERGE`, once its `:key` is read and the predicate and key
    /// resolved: the result type is read first (`NIL`, `LIST`, `VECTOR`,
    /// `SIMPLE-VECTOR`, `STRING`, `BASE-STRING`, `SIMPLE-STRING`,
    /// `SIMPLE-BASE-STRING`), then both sequences; the key is called on
    /// the elements of the first sequence, then of the second, in order;
    /// then the predicate decides the merge (see `merged_with`) and the
    /// result is built of it (see `merge_built`).
    pub fn apply_sequence_merge<H, A: Fn(&H, &Vec<Value>) -> Result<Value, RuntimeError>>(
        result_type: &Value,
        sequence1: &Value,
        sequence2: &Value,
        predicate: &H,
        key: &Option<H>,
        apply: A,
        span: Span,
    ) -> (r: Result<Value, RuntimeError>)
        requires
            forall|h: &H, args: &Vec<Value>| apply.requires((h, args)),
        ensures
            match crate::sequence_options::merge_kind_of(*result_type) {
                None => r matches Err(e) && is_invalid(
                    e,
                    "merge result type must be LIST, VECTOR, STRING, or NIL"@,
                    span,
                ),
                Some(kind) => match (crate::sequence_edits::kind_of(*sequence1), crate::sequence_edits::kind_of(*sequence2)) {
                    (None, _) => r matches Err(e) && crate::error::is_type_error(
                        e,
                        "SEQUENCE"@,
                        crate::value::kind_name_of(*sequence1),
                        span,
                    ),
                    (Some(_), None) => r matches Err(e) && crate::error::is_type_error(
                        e,
                        "SEQUENCE"@,
                        crate::value::kind_name_of(*sequence2),
                        span,
                    ),
                    (Some(_), Some(_)) => merge_outcome(
                        apply,
                        *predicate,
                        *key,
                        kind,
                        crate::setf::elements(*sequence1),
                        crate::setf::elements(*sequence2),
                        span,
                        r,
                    ) || (r matches Err(e) && merge_call_failed(
                        apply,
                        *predicate,
                        *key,
                        crate::setf::elements(*sequence1),
                        crate::setf::elements(*sequence2),
                        e,
                    )),
                },
            },
    {
        let result_kind = crate::sequence_options::merge_result_kind(result_type, span)?;
        let items1 = SequenceItems::from_value(sequence1, span)?;
        let items2 = SequenceItems::from_value(sequence2, span)?;
        proof {
            crate::setf::lemma_elements_unique(*sequence1, items1.values@, crate::setf::elements(*sequence1));
            crate::setf::lemma_elements_unique(*sequence2, items2.values@, crate::setf::elements(*sequence2));
            reveal_strlit("NIL");
            reveal_strlit("LIST");
            reveal_strlit("VECTOR");
            reveal_strlit("STRING");
        }
        let ghost xs1 = items1.values@;
        let ghost xs2 = items2.values@;
        let keys1 = match keys_for(key, &items1.values, &apply) {
            Ok(k) => k,
            Err(e) => return Err(e),
        };
        let keys2 = match keys_for(key, &items2.values, &apply) {
            Ok(k) => k,
            Err(e) => return Err(e),
        };
        let ap = &apply;
        let precedes = |a: &Value, b: &Value| -> (r: Result<bool, RuntimeError>)
            requires
                forall|h: &H, args: &Vec<Value>| ap.requires((h, args)),
            ensures
                r matches Ok(x) ==> test_answer(*ap, *predicate, seq![*a, *b], x),
                r matches Err(e) ==> applied(*ap, *predicate, seq![*a, *b], Err(e)),
        {
            let mut args: Vec<Value> = Vec::new();
            args.push(a.clone());
            args.push(b.clone());
            assert(args@ =~= seq![*a, *b]);
            call_test(predicate, &args, ap)
        };
        let merged = match crate::sequence_order::merge_keyed(&items1.values, &keys1, &items2.values, &keys2, precedes) {
            Ok(m) => m,
            Err(e) => {
                proof {
                    let (i, j) = choose|i: int, j: int|
                        #[trigger] precedes.ensures((&keys2@[j], &keys1@[i]), Err::<bool, RuntimeError>(e));
                    assert(pair_failed(apply, *predicate, keys2@[j], keys1@[i], e));
                }
                return Err(e);
            },
        };
        proof {
            lemma_merged_with(apply, *predicate, precedes, xs1, keys1@, xs2, keys2@, 0, 0, merged@);
        }
        let ghost m = merged@;
        let r = crate::sequence_options::sequence_merge_result(result_kind, merged, span);
        assert(merge_built(result_kind@, m, span, r));
        assert(merged_with(apply, *predicate, xs1, keys1@, xs2, keys2@, 0, 0, m));
        r
    }
}

/// The candidates of a duplicate scan of `[start, end)`: the key of each
/// element of the range (see `key_of`), the elements outside it as they are.
pub open spec fn range_keys<H, A: Fn(&H, &Vec<Value>) -> Result<Value, RuntimeError>>(
    apply: A,
    key: Option<H>,
    xs: Seq<Value>,
    start: int,
    end: int,
    c: Seq<Value>,
) -> bool {
    &&& c.len() == xs.len()
    &&& forall|i: int| 0 <= i < xs.len() && !(start <= i < end) ==> c[i] == xs[i]
    &&& forall|i: int| start <= i < end ==> #[trigger] key_of(apply, key, xs[i], c[i])
}

/// What the duplicate scan decided at position `i` by the test's answers
/// on `(candidate, kept candidate)`: a dropped element matched a kept one
/// scanned before it (one after it by default, one before it with
/// `from_end`); a kept element matched none of them.
pub open spec fn duplicate_answered<H, A: Fn(&H, &Vec<Value>) -> Result<Value, RuntimeError>>(
    apply: A,
    test: H,
    c: Seq<Value>,
    m: Seq<bool>,
    start: int,
    end: int,
    from_end: bool,
    invert: bool,
    i: int,
) -> bool {
    &&& m[i] ==> exists|k: int|
        dedup_before(start, end, from_end, k, i) && !m[k] && #[trigger] pair_answer(apply, test, c[i], c[k], true, invert)
    &&& !m[i] ==> forall|k: int|
        dedup_before(start, end, from_end, k, i) && !m[k] ==> #[trigger] pair_answer(apply, test, c[i], c[k], false, invert)
}

/// The test answered on `(a, b)` that they match (`dup`) or not, its
/// answer inverted with `invert`.
pub open spec fn pair_answer<H, A: Fn(&H, &Vec<Value>) -> Result<Value, RuntimeError>>(
    apply: A,
    test: H,
    a: Value,
    b: Value,
    dup: bool,
    invert: bool,
) -> bool {
    test_answer(apply, test, seq![a, b], dup != invert)
}

/// What `REMOVE-DUPLICATES` gives once its calls answered: the candidates,
/// the duplicates the test's answers decide, and the sequence without them.
pub open spec fn deduplicated<H, A: Fn(&H, &Vec<Value>) -> Result<Value, RuntimeError>>(
    apply: A,
    test: H,
    key: Option<H>,
    xs: Seq<Value>,
    start: int,
    end: int,
    from_end: bool,
    invert: bool,
    kind: crate::sequence_options::SequenceKind,
    span: Span,
    r: Result<Value, RuntimeError>,
) -> bool {
    exists|c: Seq<Value>, m: Seq<bool>|
        #![trigger range_keys(apply, key, xs, start, end, c), kept_by(xs, m)]
        range_keys(apply, key, xs, start, end, c) && m.len() == xs.len() && (forall|i: int|
            0 <= i < xs.len() && !(start <= i < end) ==> !m[i]) && (forall|i: int|
            start <= i < end ==> #[trigger] duplicate_answered(apply, test, c, m, start, end, from_end, invert, i))
            && rebuilt_sequence(kind, kept_by(xs, m), span, r)
}

/// Keys the elements of `[start, end)`, in order (see `range_keys`).
fn keys_in_range<H, A: Fn(&H, &Vec<Value>) -> Result<Value, RuntimeError>>(
    key: &Option<H>,
    xs: &Vec<Value>,
    start: usize,
    end: usize,
    apply: &A,
) -> (r: Result<Vec<Value>, RuntimeError>)
    requires
        start <= end <= xs.len(),
        forall|h: &H, args: &Vec<Value>| apply.requires((h, args)),
    ensures
        r matches Ok(c) ==> range_keys(*apply, *key, xs@, start as int, end as int, c@),
        r matches Err(e) ==> exists|i: int| start <= i < end && #[trigger] key_failed(*apply, *key, xs@[i], e),
{
    let mut c: Vec<Value> = Vec::new();
    let mut i: usize = 0;
    while i < xs.len()
        invariant
            i <= xs.len(),
            start <= end <= xs.len(),
            c.len() == i,
            forall|h: &H, args: &Vec<Value>| apply.requires((h, args)),
            forall|x: int| 0 <= x < i && !(start <= x < end) ==> c@[x] == xs@[x],
            forall|x: int| start <= x < i && x < end ==> #[trigger] key_of(*apply, *key, xs@[x], c@[x]),
        decreases xs.len() - i,
    {
        if start <= i && i < end {
            match call_key(key, &xs[i], apply) {
                Ok(k) => c.push(k),
                Err(e) => {
                    assert(key_failed(*apply, *key, xs@[i as int], e));
                    return Err(e);
                },
            }
        } else {
            c.push(xs[i].clone());
        }
        i = i + 1;
    }
    Ok(c)
}

/// A duplicate scan through a closure that answers as the test does
/// decided by the test's answers.
proof fn lemma_duplicates_answered<H, A: Fn(&H, &Vec<Value>) -> Result<Value, RuntimeError>, F: Fn(
    &Value,
    &Value,
) -> Result<bool, RuntimeError>>(
    apply: A,
    test: H,
    same: F,
    c: Seq<Value>,
    m: Seq<bool>,
    start: int,
    end: int,
    from_end: bool,
    invert: bool,
    i: int,
)
    requires
        forall|a: &Value, b: &Value, x: bool|
            #[trigger] same.ensures((a, b), Ok::<bool, RuntimeError>(x)) ==> test_answer(apply, test, seq![*a, *b], x),
        duplicate_decided(same, c, m, start, end, from_end, invert, i),
    ensures
        duplicate_answered(apply, test, c, m, start, end, from_end, invert, i),
{
    if m[i] {
        let k = choose|k: int|
            dedup_before(start, end, from_end, k, i) && !m[k] && #[trigger] answered_duplicate(same, c[i], c[k], invert);
        assert(pair_answer(apply, test, c[i], c[k], true, invert));
    } else {
        assert forall|k: int| dedup_before(start, end, from_end, k, i) && !m[k] implies #[trigger] pair_answer(
            apply,
            test,
            c[i],
            c[k],
            false,
            invert,
        ) by {
            assert(answered_distinct(same, c[i], c[k], invert));
        }
    }
}

impl Runtime {
    /// `REMOVE-DUPLICATES` and `DELETE-DUPLICATES`, once the options are
    /// read and the test and key resolved: the elements of `[start, end)`
    /// are keyed in order, then each is compared, by the test on
    /// `(its key, a kept key)`, with the kept ones scanned before it; of
    /// two matching elements the earlier one is dropped, the later one with
    /// `from_end` (see `duplicate_answered`). Bounds that do not fit are
    /// invalid.
    pub fn apply_sequence_remove_duplicates<H, A: Fn(&H, &Vec<Value>) -> Result<Value, RuntimeError>>(
        sequence: &Value,
        start: usize,
        end: Option<usize>,
        from_end: bool,
        invert: bool,
        test: &H,
        key: &Option<H>,
        apply: A,
        span: Span,
    ) -> (r: Result<Value, RuntimeError>)
        requires
            forall|h: &H, args: &Vec<Value>| apply.requires((h, args)),
        ensures
            match crate::sequence_edits::kind_of(*sequence) {
                None => r matches Err(e) && crate::error::is_type_error(
                    e,
                    "SEQUENCE"@,
                    crate::value::kind_name_of(*sequence),
                    span,
                ),
                Some(kind) => if !(start <= range_end(end, crate::setf::elements(*sequence).len())
                    <= crate::setf::elements(*sequence).len()) {
                    r matches Err(err) && is_invalid(err, "sequence removal bounds are invalid"@, span)
                } else {
                    deduplicated(
                        apply,
                        *test,
                        *key,
                        crate::setf::elements(*sequence),
                        start as int,
                        range_end(end, crate::setf::elements(*sequence).len()),
                        from_end,
                        invert,
                        kind,
                        span,
                        r,
                    ) || (r matches Err(err) && ((exists|i: int|
                        start <= i < range_end(end, crate::setf::elements(*sequence).len())
                            && #[trigger] key_failed(apply, *key, crate::setf::elements(*sequence)[i], err))
                        || exists|a: Value, b: Value| #[trigger] pair_failed(apply, *test, a, b, err)))
                },
            },
    {
        let items = SequenceItems::from_value(sequence, span)?;
        proof {
            crate::setf::lemma_elements_unique(*sequence, items.values@, crate::setf::elements(*sequence));
        }
        let stop = crate::sequence_edits::sequence_bounds(start, end, items.values.len(), "sequence removal bounds are invalid", span)?;
        let ghost xs = items.values@;
        assert(xs == crate::setf::elements(*sequence));
        let ghost e: int = match end {
            Some(x) => x as int,
            None => xs.len() as int,
        };
        assert(e == stop as int);
        let candidates = match keys_in_range(key, &items.values, start, stop, &apply) {
            Ok(c) => c,
            Err(e) => return Err(e),
        };
        let ap = &apply;
        let same = |a: &Value, b: &Value| -> (r: Result<bool, RuntimeError>)
            requires
                forall|h: &H, args: &Vec<Value>| ap.requires((h, args)),
            ensures
                r matches Ok(x) ==> test_answer(*ap, *test, seq![*a, *b], x),
                r matches Err(e) ==> applied(*ap, *test, seq![*a, *b], Err(e)),
        {
            let mut args: Vec<Value> = Vec::new();
            args.push(a.clone());
            args.push(b.clone());
            assert(args@ =~= seq![*a, *b]);
            call_test(test, &args, ap)
        };
        let marks = match crate::sequence_edits::duplicate_marks(&candidates, start, stop, from_end, invert, same) {
            Ok(m) => m,
            Err(e) => {
                proof {
                    let (i, k) = choose|i: int, k: int|
                        #[trigger] same.ensures((&candidates@[i], &candidates@[k]), Err::<bool, RuntimeError>(e));
                    assert(pair_failed(apply, *test, candidates@[i], candidates@[k], e));
                }
                return Err(e);
            },
        };
        proof {
            assert forall|i: int| start <= i < stop implies #[trigger] duplicate_answered(
                apply,
                *test,
                candidates@,
                marks@,
                start as int,
                stop as int,
                from_end,
                invert,
                i,
            ) by {
                lemma_duplicates_answered(apply, *test, same, candidates@, marks@, start as int, stop as int, from_end, invert, i);
            }
        }
        let ghost kind = items.kind;
        let r = Runtime::sequence_without_marked(items, &marks, sequence, span);
        assert(range_keys(apply, *key, xs, start as int, stop as int, candidates@));
        r
    }
}

/// The test answers on `(a, b)` as `lt(a, b)` whenever it answers.
pub open spec fn test_answers_as<H, A: Fn(&H, &Vec<Value>) -> Result<Value, RuntimeError>>(
    apply: A,
    test: H,
    lt: spec_fn(Value, Value) -> bool,
) -> bool {
    forall|args: Seq<Value>, x: bool|
        #[trigger] test_answer(apply, test, args, x) && args.len() == 2 ==> x == lt(args[0], args[1])
}

/// `lt` is a strict weak order: irreflexive, transitive, and what is not
/// less stays not less along a chain.
pub open spec fn strict_weak_order(lt: spec_fn(Value, Value) -> bool) -> bool {
    &&& forall|a: Value| !#[trigger] lt(a, a)
    &&& forall|a: Value, b: Value, c: Value| #[trigger] lt(a, b) && #[trigger] lt(b, c) ==> lt(a, c)
    &&& forall|a: Value, b: Value, c: Value| !#[trigger] lt(a, b) && !#[trigger] lt(b, c) ==> !lt(a, c)
}

/// The keys `kf` gives of `xs` are in order for `lt`.
pub open spec fn ordered_by(lt: spec_fn(Value, Value) -> bool, kf: spec_fn(Value) -> Value, xs: Seq<Value>) -> bool {
    forall|p: int, q: int| 0 <= p < q < xs.len() ==> !lt(kf(#[trigger] xs[q]), kf(#[trigger] xs[p]))
}

/// No key of the merge from `(i, j)` is less than `x` when no key left in
/// either sequence is.
proof fn lemma_merge_lower_bound<H, A: Fn(&H, &Vec<Value>) -> Result<Value, RuntimeError>>(
    apply: A,
    predicate: H,
    lt: spec_fn(Value, Value) -> bool,
    kf: spec_fn(Value) -> Value,
    xs1: Seq<Value>,
    ks1: Seq<Value>,
    xs2: Seq<Value>,
    ks2: Seq<Value>,
    i: int,
    j: int,
    m: Seq<Value>,
    x: Value,
)
    requires
        ks1.len() == xs1.len(),
        ks2.len() == xs2.len(),
        forall|a: int| 0 <= a < xs1.len() ==> #[trigger] ks1[a] == kf(xs1[a]),
        forall|b: int| 0 <= b < xs2.len() ==> #[trigger] ks2[b] == kf(xs2[b]),
        merged_with(apply, predicate, xs1, ks1, xs2, ks2, i, j, m),
        forall|a: int| i <= a < xs1.len() ==> !lt(#[trigger] ks1[a], x),
        forall|b: int| j <= b < xs2.len() ==> !lt(#[trigger] ks2[b], x),
    ensures
        forall|t: int| 0 <= t < m.len() ==> !lt(kf(#[trigger] m[t]), x),
    decreases (xs1.len() - i) + (xs2.len() - j),
{
    if i == xs1.len() {
        assert forall|t: int| 0 <= t < m.len() implies !lt(kf(#[trigger] m[t]), x) by {
            assert(m[t] == xs2[j + t]);
            assert(ks2[j + t] == kf(xs2[j + t]));
        }
    } else if j == xs2.len() {
        assert forall|t: int| 0 <= t < m.len() implies !lt(kf(#[trigger] m[t]), x) by {
            assert(m[t] == xs1[i + t]);
            assert(ks1[i + t] == kf(xs1[i + t]));
        }
    } else {
        let tail = m.drop_first();
        if test_answer(apply, predicate, seq![ks2[j], ks1[i]], true) && m[0] == xs2[j] && merged_with(
            apply,
            predicate,
            xs1,
            ks1,
            xs2,
            ks2,
            i,
            j + 1,
            tail,
        ) {
            lemma_merge_lower_bound(apply, predicate, lt, kf, xs1, ks1, xs2, ks2, i, j + 1, tail, x);
            assert(ks2[j] == kf(xs2[j]));
        } else {
            lemma_merge_lower_bound(apply, predicate, lt, kf, xs1, ks1, xs2, ks2, i + 1, j, tail, x);
            assert(ks1[i] == kf(xs1[i]));
        }
        assert forall|t: int| 0 <= t < m.len() implies !lt(kf(#[trigger] m[t]), x) by {
            if t > 0 {
                assert(m[t] == tail[t - 1]);
            }
        }
    }
}

proof fn lemma_merge_ordered_from<H, A: Fn(&H, &Vec<Value>) -> Result<Value, RuntimeError>>(
    apply: A,
    predicate: H,
    lt: spec_fn(Value, Value) -> bool,
    kf: spec_fn(Value) -> Value,
    xs1: Seq<Value>,
    ks1: Seq<Value>,
    xs2: Seq<Value>,
    ks2: Seq<Value>,
    i: int,
    j: int,
    m: Seq<Value>,
)
    requires
        ks1.len() == xs1.len(),
        ks2.len() == xs2.len(),
        forall|a: int| 0 <= a < xs1.len() ==> #[trigger] ks1[a] == kf(xs1[a]),
        forall|b: int| 0 <= b < xs2.len() ==> #[trigger] ks2[b] == kf(xs2[b]),
        ordered_by(lt, kf, xs1),
        ordered_by(lt, kf, xs2),
        test_answers_as(apply, predicate, lt),
        strict_weak_order(lt),
        merged_with(apply, predicate, xs1, ks1, xs2, ks2, i, j, m),
    ensures
        ordered_by(lt, kf, m),
    decreases (xs1.len() - i) + (xs2.len() - j),
{
    if i == xs1.len() {
        assert forall|p: int, q: int| 0 <= p < q < m.len() implies !lt(kf(#[trigger] m[q]), kf(#[trigger] m[p])) by {
            assert(m[p] == xs2[j + p] && m[q] == xs2[j + q]);
        }
    } else if j == xs2.len() {
        assert forall|p: int, q: int| 0 <= p < q < m.len() implies !lt(kf(#[trigger] m[q]), kf(#[trigger] m[p])) by {
            assert(m[p] == xs1[i + p] && m[q] == xs1[i + q]);
        }
    } else {
        let tail = m.drop_first();
        assert(ks1[i] == kf(xs1[i]));
        assert(ks2[j] == kf(xs2[j]));
        if test_answer(apply, predicate, seq![ks2[j], ks1[i]], true) && m[0] == xs2[j] && merged_with(
            apply,
            predicate,
            xs1,
            ks1,
            xs2,
            ks2,
            i,
            j + 1,
            tail,
        ) {
            assert(lt(ks2[j], ks1[i]));
            assert forall|a: int| i <= a < xs1.len() implies !lt(#[trigger] ks1[a], ks2[j]) by {
                assert(ks1[a] == kf(xs1[a]));
                if lt(ks1[a], ks2[j]) {
                    assert(lt(ks1[a], ks1[i]));
                    if a > i {
                        assert(!lt(kf(xs1[a]), kf(xs1[i])));
                    }
                }
            }
            assert forall|b: int| j + 1 <= b < xs2.len() implies !lt(#[trigger] ks2[b], ks2[j]) by {
                assert(ks2[b] == kf(xs2[b]));
                assert(!lt(kf(xs2[b]), kf(xs2[j])));
            }
            lemma_merge_lower_bound(apply, predicate, lt, kf, xs1, ks1, xs2, ks2, i, j + 1, tail, ks2[j]);
            lemma_merge_ordered_from(apply, predicate, lt, kf, xs1, ks1, xs2, ks2, i, j + 1, tail);
        } else {
            assert(test_answer(apply, predicate, seq![ks2[j], ks1[i]], false));
            assert(!lt(ks2[j], ks1[i]));
            assert forall|a: int| i + 1 <= a < xs1.len() implies !lt(#[trigger] ks1[a], ks1[i]) by {
                assert(ks1[a] == kf(xs1[a]));
                assert(!lt(kf(xs1[a]), kf(xs1[i])));
            }
            assert forall|b: int| j <= b < xs2.len() implies !lt(#[trigger] ks2[b], ks1[i]) by {
                assert(ks2[b] == kf(xs2[b]));
                if b > j {
                    assert(!lt(kf(xs2[b]), kf(xs2[j])));
                }
            }
            lemma_merge_lower_bound(apply, predicate, lt, kf, xs1, ks1, xs2, ks2, i + 1, j, tail, ks1[i]);
            lemma_merge_ordered_from(apply, predicate, lt, kf, xs1, ks1, xs2, ks2, i + 1, j, tail);
        }
        assert forall|p: int, q: int| 0 <= p < q < m.len() implies !lt(kf(#[trigger] m[q]), kf(#[trigger] m[p])) by {
            assert(m[q] == tail[q - 1]);
            if p > 0 {
                assert(m[p] == tail[p - 1]);
            }
        }
    }
}

/// Merging two sequences whose keys are in order, with a predicate that
/// answers as a strict weak order on the keys, gives a sequence whose keys
/// are in order. `kf` is what the key function gives (the element itself
/// without one).
pub proof fn lemma_merge_keeps_order<H, A: Fn(&H, &Vec<Value>) -> Result<Value, RuntimeError>>(
    apply: A,
    predicate: H,
    lt: spec_fn(Value, Value) -> bool,
    kf: spec_fn(Value) -> Value,
    xs1: Seq<Value>,
    ks1: Seq<Value>,
    xs2: Seq<Value>,
    ks2: Seq<Value>,
    m: Seq<Value>,
)
    requires
        ks1.len() == xs1.len(),
        ks2.len() == xs2.len(),
        forall|a: int| 0 <= a < xs1.len() ==> #[trigger] ks1[a] == kf(xs1[a]),
        forall|b: int| 0 <= b < xs2.len() ==> #[trigger] ks2[b] == kf(xs2[b]),
        ordered_by(lt, kf, xs1),
        ordered_by(lt, kf, xs2),
        test_answers_as(apply, predicate, lt),
        strict_weak_order(lt),
        merged_with(apply, predicate, xs1, ks1, xs2, ks2, 0, 0, m),
    ensures
        ordered_by(lt, kf, m),
{
    lemma_merge_ordered_from(apply, predicate, lt, kf, xs1, ks1, xs2, ks2, 0, 0, m);
}

impl Runtime {
    /// `SEARCH` and `MISMATCH`: the operation is checked first, then the
    /// keyword arguments are read (see `pair_search_grammar`), then both
    /// sequences; bounds that do not fit them are invalid; otherwise the
    /// search runs on those bounds (see `pair_searched`), inverted for
    /// `:test-not`. `f` is the caller's key and test, resolved from the same
    /// keyword arguments.
    pub fn apply_sequence_pair_search<F: Fn(&Value, &Value) -> Result<bool, RuntimeError>>(
        operation: &str,
        sequence1: &Value,
        sequence2: &Value,
        options: &[Value],
        f: F,
        span: Span,
    ) -> (r: Result<Value, RuntimeError>)
        requires
            forall|x: &Value, y: &Value| f.requires((x, y)),
            crate::setf::elements(*sequence1).len() <= i64::MAX,
            crate::setf::elements(*sequence2).len() <= i64::MAX,
        ensures
            !crate::sequence_search::pair_search_operation(operation@) ==> (r matches Err(e) && is_invalid(
                e,
                "unknown sequence pair search operation"@,
                span,
            )),
            crate::sequence_search::pair_search_operation(operation@) ==> match crate::sequence_options::options_outcome(
                crate::sequence_options::pair_search_grammar(),
                options@,
            ) {
                Err(fl) => r matches Err(e) && crate::sequence_options::failure_error(
                    crate::sequence_options::pair_search_grammar(),
                    fl,
                    span,
                    e,
                ),
                Ok(o) => match (crate::sequence_edits::kind_of(*sequence1), crate::sequence_edits::kind_of(*sequence2)) {
                    (None, _) => r matches Err(e) && crate::error::is_type_error(
                        e,
                        "SEQUENCE"@,
                        crate::value::kind_name_of(*sequence1),
                        span,
                    ),
                    (Some(_), None) => r matches Err(e) && crate::error::is_type_error(
                        e,
                        "SEQUENCE"@,
                        crate::value::kind_name_of(*sequence2),
                        span,
                    ),
                    (Some(_), Some(_)) => {
                        let xs1 = crate::setf::elements(*sequence1);
                        let xs2 = crate::setf::elements(*sequence2);
                        let e1 = range_end(o.end, xs1.len());
                        let e2 = range_end(o.end2, xs2.len());
                        if !(o.start <= e1 <= xs1.len() && o.start2 <= e2 <= xs2.len()) {
                            r matches Err(e) && is_invalid(e, "sequence pair search bounds are invalid"@, span)
                        } else {
                            crate::sequence_search::pair_searched(
                                operation@,
                                f,
                                xs1,
                                o.start as int,
                                e1,
                                xs2,
                                o.start2 as int,
                                e2,
                                o.from_end,
                                o.test_not is Some,
                                span,
                                r,
                            )
                        }
                    },
                },
            },
    {
        let op = crate::text::chars_of(operation);
        if !(crate::text::text_is(&op, "SEARCH") || crate::text::text_is(&op, "MISMATCH")) {
            return Err(invalid("unknown sequence pair search operation", span));
        }
        let o = crate::sequence_options::parse_sequence_pair_search_options(options, span)?;
        let items1 = SequenceItems::from_value(sequence1, span)?;
        let items2 = SequenceItems::from_value(sequence2, span)?;
        proof {
            crate::setf::lemma_elements_unique(*sequence1, items1.values@, crate::setf::elements(*sequence1));
            crate::setf::lemma_elements_unique(*sequence2, items2.values@, crate::setf::elements(*sequence2));
        }
        let end1 = match o.end1 {
            Some(x) => x,
            None => items1.values.len(),
        };
        let end2 = match o.end2 {
            Some(x) => x,
            None => items2.values.len(),
        };
        if o.start1 > end1 || end1 > items1.values.len() || o.start2 > end2 || end2 > items2.values.len() {
            return Err(invalid("sequence pair search bounds are invalid", span));
        }
        let invert = o.test_not.is_some();
        Runtime::pair_search_result(
            operation,
            &items1.values,
            o.start1,
            end1,
            &items2.values,
            o.start2,
            end2,
            o.from_end,
            invert,
            f,
            span,
        )
    }
}

} // verus!
