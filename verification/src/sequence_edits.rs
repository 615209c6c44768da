//! Removal and substitution over sequences: the elements of a sequence and
//! its rebuilding, which matches a count-limited operation selects, and the
//! result of removing or replacing them. The tests that decide a match are
//! the caller's functions, passed in as closures.
use vstd::prelude::*;
use crate::error::{invalid, is_invalid, is_type_error, type_error, RuntimeError};
use crate::sequence_options::{
    copy_values, elements_of, string_of_values, string_values, text_of_values, SequenceKind,
};
use crate::runtime::Runtime;
use crate::syntax::Span;
use crate::text::{chars_of, text_is};
use crate::value::{kind_name_of, Value};

verus! {

/// The kind of sequence a value is; `NIL` is the empty list.
pub open spec fn kind_of(v: Value) -> Option<SequenceKind> {
    match v {
        Value::Nil => Some(SequenceKind::List),
        Value::List(_) => Some(SequenceKind::List),
        Value::Vector(_) => Some(SequenceKind::Vector),
        Value::String(_) => Some(SequenceKind::String),
        _ => None,
    }
}

/// A sequence taken apart: its kind and its elements.
pub struct SequenceItems {
    pub kind: SequenceKind,
    pub values: Vec<Value>,
}

/// Whether `v` is the sequence of kind `kind` made of `items`: a list, a
/// vector, or the string of the characters (else the type error for the
/// first element that is no character).
pub open spec fn rebuilt_sequence(kind: SequenceKind, items: Seq<Value>, span: Span, r: Result<Value, RuntimeError>) -> bool {
    match kind {
        SequenceKind::List => r matches Ok(v) && (if items.len() == 0 {
            v == Value::Nil
        } else {
            v matches Value::List(l) && l@ == items
        }),
        SequenceKind::Vector => r matches Ok(v) && v matches Value::Vector(l) && l@ == items,
        SequenceKind::String => match text_of_values(items) {
            Ok(cs) => r matches Ok(v) && v matches Value::String(s) && s@ == cs,
            Err(bad) => r matches Err(e) && is_type_error(e, "CHARACTER"@, kind_name_of(bad), span),
        },
    }
}

impl SequenceItems {
    /// Takes a sequence apart; a type error for any other value.
    pub fn from_value(value: &Value, span: Span) -> (r: Result<SequenceItems, RuntimeError>)
        ensures
            match kind_of(*value) {
                Some(k) => r matches Ok(s) && s.kind == k && elements_of(*value, s.values@),
                None => r matches Err(e) && is_type_error(e, "SEQUENCE"@, kind_name_of(*value), span),
            },
    {
        match value {
            Value::Nil => Ok(SequenceItems { kind: SequenceKind::List, values: Vec::new() }),
            Value::List(items) => Ok(SequenceItems { kind: SequenceKind::List, values: copy_values(items) }),
            Value::Vector(items) => Ok(SequenceItems { kind: SequenceKind::Vector, values: copy_values(items) }),
            Value::String(s) => Ok(SequenceItems { kind: SequenceKind::String, values: string_values(s) }),
            _ => Err(type_error("SEQUENCE", value, span)),
        }
    }

    /// Builds the sequence of the same kind back (see `rebuilt_sequence`).
    /// The template is the sequence the elements came from.
    pub fn into_value(self, template: &Value, span: Span) -> (r: Result<Value, RuntimeError>)
        ensures
            rebuilt_sequence(self.kind, self.values@, span, r),
    {
        match self.kind {
            SequenceKind::List => Ok(Value::list(self.values)),
            SequenceKind::Vector => Ok(Value::vector(self.values)),
            SequenceKind::String => string_of_values(self.values, span),
        }
    }
}

/// The end of the range `[start, end)` of a sequence of `len` elements,
/// `end` defaulting to the length; `message` reports bounds that do not fit.
pub fn sequence_bounds(start: usize, end: Option<usize>, len: usize, message: &str, span: Span) -> (r: Result<
    usize,
    RuntimeError,
>)
    ensures
        ({
            let e: int = match end {
                Some(x) => x as int,
                None => len as int,
            };
            if start <= e <= len {
                r == Ok::<usize, RuntimeError>(e as usize)
            } else {
                r matches Err(err) && is_invalid(err, message@, span)
            }
        }),
{
    let e = match end {
        Some(x) => x,
        None => len,
    };
    if start > e || e > len {
        Err(invalid(message, span))
    } else {
        Ok(e)
    }
}

/// The number of marked positions in `[from, to)`.
pub open spec fn count_marked(m: Seq<bool>, from: int, to: int) -> nat
    decreases to - from,
{
    if to <= from {
        0
    } else {
        count_marked(m, from, to - 1) + if m[to - 1] {
            1nat
        } else {
            0nat
        }
    }
}

/// How many matches a count-limited operation acts on: all of them, or
/// at most `count`.
pub open spec fn match_limit(m: Seq<bool>, start: int, end: int, count: Option<usize>) -> nat {
    let total = count_marked(m, start, end);
    match count {
        Some(c) => if c < total {
            c as nat
        } else {
            total
        },
        None => total,
    }
}

/// Whether position `i` is one of the matches in `[start, end)` that a
/// count-limited operation selects: the first ones from the front, or the
/// last ones with `from_end`.
pub open spec fn selected(m: Seq<bool>, start: int, end: int, count: Option<usize>, from_end: bool, i: int) -> bool {
    &&& start <= i < end
    &&& m[i]
    &&& if from_end {
        count_marked(m, i + 1, end) < match_limit(m, start, end, count)
    } else {
        count_marked(m, start, i) < match_limit(m, start, end, count)
    }
}

/// Counting over two adjacent ranges adds up.
pub proof fn lemma_count_split(m: Seq<bool>, a: int, b: int, c: int)
    requires
        a <= b <= c,
    ensures
        count_marked(m, a, c) == count_marked(m, a, b) + count_marked(m, b, c),
    decreases c - b,
{
    if b < c {
        lemma_count_split(m, a, b, c - 1);
    }
}

proof fn lemma_count_bounded(m: Seq<bool>, a: int, b: int)
    requires
        a <= b,
    ensures
        count_marked(m, a, b) <= b - a,
    decreases b - a,
{
    if a < b {
        lemma_count_bounded(m, a, b - 1);
    }
}

/// The matches in `[start, end)` of `matched` that a count-limited
/// operation acts on (see `selected`).
pub fn select_matches(matched: &Vec<bool>, start: usize, end: usize, count: Option<usize>, from_end: bool) -> (r: Vec<
    bool,
>)
    requires
        start <= end <= matched.len(),
    ensures
        r.len() == matched.len(),
        forall|i: int| 0 <= i < r.len() ==> r@[i] == selected(matched@, start as int, end as int, count, from_end, i),
{
    let ghost m = matched@;
    let mut total: usize = 0;
    let mut i: usize = start;
    while i < end
        invariant
            start <= i <= end <= matched.len(),
            m == matched@,
            total == count_marked(m, start as int, i as int),
            total <= i - start,
        decreases end - i,
    {
        if matched[i] {
            total = total + 1;
        }
        i = i + 1;
    }
    let limit: usize = match count {
        Some(c) => if c < total {
            c
        } else {
            total
        },
        None => total,
    };
    assert(limit == match_limit(m, start as int, end as int, count));
    let mut r: Vec<bool> = Vec::new();
    let mut k: usize = 0;
    while k < matched.len()
        invariant
            k <= matched.len(),
            r.len() == k,
            forall|j: int| 0 <= j < k ==> r@[j] == false,
        decreases matched.len() - k,
    {
        r.push(false);
        k = k + 1;
    }
    if from_end {
        let mut taken: usize = 0;
        let mut j: usize = end;
        while j > start
            invariant
                from_end,
                start <= j <= end <= matched.len(),
                m == matched@,
                r.len() == matched.len(),
                taken == count_marked(m, j as int, end as int),
                limit == match_limit(m, start as int, end as int, count),
                forall|x: int| 0 <= x < r.len() ==> r@[x] == (j <= x && selected(
                    m,
                    start as int,
                    end as int,
                    count,
                    from_end,
                    x,
                )),
            decreases j - start,
        {
            let x = j - 1;
            proof {
                lemma_count_split(m, x as int, j as int, end as int);
                lemma_count_bounded(m, j as int, end as int);
                assert(count_marked(m, x as int, x as int) == 0);
                assert(count_marked(m, x as int, j as int) == if m[x as int] {
                    1nat
                } else {
                    0nat
                });
            }
            if matched[x] && taken < limit {
                r.set(x, true);
            }
            if matched[x] {
                taken = taken + 1;
            }
            j = x;
        }
    } else {
        let mut taken: usize = 0;
        let mut j: usize = start;
        while j < end
            invariant
                !from_end,
                start <= j <= end <= matched.len(),
                m == matched@,
                r.len() == matched.len(),
                taken == count_marked(m, start as int, j as int),
                taken <= j - start,
                limit == match_limit(m, start as int, end as int, count),
                forall|x: int| 0 <= x < r.len() ==> r@[x] == (x < j && selected(
                    m,
                    start as int,
                    end as int,
                    count,
                    from_end,
                    x,
                )),
            decreases end - j,
        {
            if matched[j] && taken < limit {
                r.set(j, true);
            }
            if matched[j] {
                taken = taken + 1;
            }
            j = j + 1;
        }
    }
    r
}

/// The elements of `items` at the unmarked positions, in order.
pub open spec fn kept_by(items: Seq<Value>, marks: Seq<bool>) -> Seq<Value>
    decreases items.len(),
{
    if items.len() == 0 {
        Seq::empty()
    } else {
        let rest = kept_by(items.drop_last(), marks);
        if marks[items.len() - 1] {
            rest
        } else {
            rest.push(items.last())
        }
    }
}

/// The elements at the unmarked positions (see `kept_by`).
pub fn remove_marked(items: &Vec<Value>, marks: &Vec<bool>) -> (r: Vec<Value>)
    requires
        marks.len() == items.len(),
    ensures
        r@ == kept_by(items@, marks@),
{
    let mut out: Vec<Value> = Vec::new();
    let mut i: usize = 0;
    while i < items.len()
        invariant
            i <= items.len() == marks.len(),
            out@ == kept_by(items@.take(i as int), marks@),
        decreases items.len() - i,
    {
        proof {
            assert(items@.take(i + 1).drop_last() =~= items@.take(i as int));
        }
        if !marks[i] {
            out.push(items[i].clone());
        }
        i = i + 1;
    }
    proof {
        assert(items@.take(items.len() as int) =~= items@);
    }
    out
}

/// The elements with those at the marked positions replaced by `new_item`.
pub fn replace_marked(items: &Vec<Value>, marks: &Vec<bool>, new_item: &Value) -> (r: Vec<Value>)
    requires
        marks.len() == items.len(),
    ensures
        r.len() == items.len(),
        forall|i: int| 0 <= i < items.len() ==> r@[i] == if marks@[i] {
            *new_item
        } else {
            items@[i]
        },
{
    let mut out: Vec<Value> = Vec::new();
    let mut i: usize = 0;
    while i < items.len()
        invariant
            i <= items.len() == marks.len(),
            out.len() == i,
            forall|j: int| 0 <= j < i ==> out@[j] == if marks@[j] {
                *new_item
            } else {
                items@[j]
            },
        decreases items.len() - i,
    {
        if marks[i] {
            out.push(new_item.clone());
        } else {
            out.push(items[i].clone());
        }
        i = i + 1;
    }
    out
}

/// Calls `test` on each candidate in `[start, end)`, in order, and marks
/// the positions where it answers true (false with `invert`). The first
/// error a call returns ends the scan and is returned.
pub fn test_marks<F: Fn(&Value) -> Result<bool, RuntimeError>>(
    candidates: &Vec<Value>,
    start: usize,
    end: usize,
    invert: bool,
    test: F,
) -> (r: Result<Vec<bool>, RuntimeError>)
    requires
        start <= end <= candidates.len(),
        forall|v: &Value| test.requires((v,)),
    ensures
        r matches Ok(m) ==> m.len() == candidates.len() && forall|i: int|
            0 <= i < candidates.len() ==> if start <= i < end {
                test.ensures((&candidates@[i],), Ok::<bool, RuntimeError>(m@[i] != invert))
            } else {
                !m@[i]
            },
        r matches Err(e) ==> exists|i: int|
            start <= i < end && #[trigger] test.ensures((&candidates@[i],), Err::<bool, RuntimeError>(e)),
{
    let mut m: Vec<bool> = Vec::new();
    let mut k: usize = 0;
    while k < candidates.len()
        invariant
            k <= candidates.len(),
            m.len() == k,
            forall|j: int| 0 <= j < k ==> !m@[j],
        decreases candidates.len() - k,
    {
        m.push(false);
        k = k + 1;
    }
    let mut i: usize = start;
    while i < end
        invariant
            start <= i <= end <= candidates.len(),
            m.len() == candidates.len(),
            forall|v: &Value| test.requires((v,)),
            forall|j: int|
                0 <= j < candidates.len() ==> if start <= j < i {
                    test.ensures((&candidates@[j],), Ok::<bool, RuntimeError>(m@[j] != invert))
                } else {
                    !m@[j]
                },
        decreases end - i,
    {
        let answer = test(&candidates[i]);
        match answer {
            Ok(b) => {
                if b != invert {
                    m.set(i, true);
                }
            },
            Err(e) => {
                assert(test.ensures((&candidates@[i as int],), Err::<bool, RuntimeError>(e)));
                return Err(e);
            },
        }
        i = i + 1;
    }
    Ok(m)
}

/// Whether position `k` is scanned before position `i` by a scan of
/// `[start, end)` from the front, or from the end with `from_end`.
pub open spec fn scanned_before(start: int, end: int, from_end: bool, k: int, i: int) -> bool {
    &&& start <= k < end
    &&& if from_end {
        k > i
    } else {
        k < i
    }
}

/// Whether the `p` first positions of a scan of `[start, end)` from the
/// front (from the end with `from_end`) include `x`.
pub open spec fn scanned(start: int, end: int, from_end: bool, p: int, x: int) -> bool {
    &&& start <= x < end
    &&& if from_end {
        x >= end - p
    } else {
        x < start + p
    }
}

/// Whether position `k` is scanned before position `i` when duplicates
/// are looked for in `[start, end)`: from the end by default, so that of
/// two matching elements the earlier one is dropped; from the front with
/// `from_end`, so that the later one is dropped.
pub open spec fn dedup_before(start: int, end: int, from_end: bool, k: int, i: int) -> bool {
    &&& start <= k < end
    &&& if from_end {
        k < i
    } else {
        k > i
    }
}

/// Whether the `p` first positions of the scan of `[start, end)` include `x`.
pub open spec fn dedup_scanned(start: int, end: int, from_end: bool, p: int, x: int) -> bool {
    &&& start <= x < end
    &&& if from_end {
        x < start + p
    } else {
        x >= end - p
    }
}

/// `same` answered that `a` duplicates `b` (did not match them, with `invert`).
pub open spec fn answered_duplicate<F: Fn(&Value, &Value) -> Result<bool, RuntimeError>>(
    same: F,
    a: Value,
    b: Value,
    invert: bool,
) -> bool {
    same.ensures((&a, &b), Ok::<bool, RuntimeError>(!invert))
}

/// `same` answered that `a` does not duplicate `b`.
pub open spec fn answered_distinct<F: Fn(&Value, &Value) -> Result<bool, RuntimeError>>(
    same: F,
    a: Value,
    b: Value,
    invert: bool,
) -> bool {
    same.ensures((&a, &b), Ok::<bool, RuntimeError>(invert))
}

/// What the scan for duplicates decided at position `i`: a dropped
/// element matched a kept one scanned before it; a kept element matched
/// none of them.
pub open spec fn duplicate_decided<F: Fn(&Value, &Value) -> Result<bool, RuntimeError>>(
    same: F,
    c: Seq<Value>,
    m: Seq<bool>,
    start: int,
    end: int,
    from_end: bool,
    invert: bool,
    i: int,
) -> bool {
    &&& m[i] ==> exists|k: int|
        dedup_before(start, end, from_end, k, i) && !m[k] && #[trigger] answered_duplicate(
            same,
            c[i],
            c[k],
            invert,
        )
    &&& !m[i] ==> forall|k: int|
        dedup_before(start, end, from_end, k, i) && !m[k] ==> #[trigger] answered_distinct(
            same,
            c[i],
            c[k],
            invert,
        )
}

/// The positions in `[start, end)` that removing duplicates drops: each
/// candidate is compared with the kept ones scanned before it (from the
/// end by default, from the front with `from_end`; see
/// `dedup_before`), and dropped at the first that `same` matches
/// (does not match, with `invert`). The first error a call returns ends
/// the scan and is returned.
pub fn duplicate_marks<F: Fn(&Value, &Value) -> Result<bool, RuntimeError>>(
    candidates: &Vec<Value>,
    start: usize,
    end: usize,
    from_end: bool,
    invert: bool,
    same: F,
) -> (r: Result<Vec<bool>, RuntimeError>)
    requires
        start <= end <= candidates.len(),
        forall|a: &Value, b: &Value| same.requires((a, b)),
    ensures
        r matches Ok(m) ==> m.len() == candidates.len() && (forall|i: int|
            0 <= i < candidates.len() && !(start <= i < end) ==> !m@[i]) && forall|i: int|
            start <= i < end ==> duplicate_decided(
                same,
                candidates@,
                m@,
                start as int,
                end as int,
                from_end,
                invert,
                i,
            ),
        r matches Err(e) ==> exists|i: int, k: int|
            #[trigger] same.ensures((&candidates@[i], &candidates@[k]), Err::<bool, RuntimeError>(e)),
{
    let ghost c = candidates@;
    let mut m: Vec<bool> = Vec::new();
    let mut z: usize = 0;
    while z < candidates.len()
        invariant
            z <= candidates.len(),
            m.len() == z,
            forall|j: int| 0 <= j < z ==> !m@[j],
        decreases candidates.len() - z,
    {
        m.push(false);
        z = z + 1;
    }
    let mut kept: Vec<usize> = Vec::new();
    let mut p: usize = 0;
    while p < end - start
        invariant
            start <= end <= candidates.len(),
            c == candidates@,
            p <= end - start,
            m.len() == candidates.len(),
            forall|a: &Value, b: &Value| same.requires((a, b)),
            forall|x: int| 0 <= x < m.len() && !dedup_scanned(start as int, end as int, from_end, p as int, x) ==> !m@[x],
            forall|t: int|
                0 <= t < kept.len() ==> dedup_scanned(start as int, end as int, from_end, p as int, kept@[t] as int)
                    && !m@[kept@[t] as int],
            forall|k: int|
                dedup_scanned(start as int, end as int, from_end, p as int, k) && !m@[k] ==> exists|t: int|
                    0 <= t < kept.len() && kept@[t] == k,
            forall|x: int|
                dedup_scanned(start as int, end as int, from_end, p as int, x) ==> duplicate_decided(
                    same,
                    c,
                    m@,
                    start as int,
                    end as int,
                    from_end,
                    invert,
                    x,
                ),
        decreases end - start - p,
    {
        let i: usize = if from_end {
            start + p
        } else {
            end - 1 - p
        };
        assert(forall|k: int|
            dedup_before(start as int, end as int, from_end, k, i as int) <==> dedup_scanned(
                start as int,
                end as int,
                from_end,
                p as int,
                k,
            ));
        let mut duplicate = false;
        let mut t: usize = 0;
        while t < kept.len()
            invariant_except_break
                !duplicate,
                t <= kept.len(),
                forall|u: int|
                    0 <= u < t ==> answered_distinct(same, c[i as int], #[trigger] c[kept@[u] as int], invert),
            invariant
                c == candidates@,
                start <= i < end <= candidates.len(),
                forall|a: &Value, b: &Value| same.requires((a, b)),
                forall|u: int| 0 <= u < kept.len() ==> start <= #[trigger] kept@[u] < end,
            ensures
                duplicate ==> t < kept.len() && answered_duplicate(same, c[i as int], c[kept@[t as int] as int], invert),
                !duplicate ==> t == kept.len() && forall|u: int|
                    0 <= u < kept.len() ==> answered_distinct(same, c[i as int], #[trigger] c[kept@[u] as int], invert),
            decreases kept.len() - t,
        {
            let k = kept[t];
            match same(&candidates[i], &candidates[k]) {
                Ok(b) => {
                    if b != invert {
                        duplicate = true;
                        break;
                    }
                },
                Err(e) => {
                    assert(same.ensures((&c[i as int], &c[k as int]), Err::<bool, RuntimeError>(e)));
                    return Err(e);
                },
            }
            t = t + 1;
        }
        let ghost before = m@;
        let ghost kept_before = kept@;
        if duplicate {
            m.set(i, true);
            proof {
                let k = kept_before[t as int] as int;
                assert(dedup_before(start as int, end as int, from_end, k, i as int));
                assert(answered_duplicate(same, c[i as int], c[k], invert));
            }
        } else {
            kept.push(i);
            proof {
                assert(kept@[kept_before.len() as int] == i);
            }
        }
        proof {
            assert forall|x: int|
                0 <= x < m.len() && !dedup_scanned(start as int, end as int, from_end, p + 1, x) implies !m@[x] by {
                if x != i {
                    assert(!dedup_scanned(start as int, end as int, from_end, p as int, x));
                }
            }
            assert forall|k: int|
                dedup_scanned(start as int, end as int, from_end, p + 1, k) && !m@[k] implies exists|u: int|
                    0 <= u < kept.len() && kept@[u] == k by {
                if k != i {
                    assert(dedup_scanned(start as int, end as int, from_end, p as int, k));
                    let u = choose|u: int| 0 <= u < kept_before.len() && kept_before[u] == k;
                    assert(kept@[u] == k);
                } else {
                    assert(kept@[kept_before.len() as int] == k);
                }
            }
            assert forall|x: int|
                dedup_scanned(start as int, end as int, from_end, p + 1, x) implies duplicate_decided(
                    same,
                    c,
                    m@,
                    start as int,
                    end as int,
                    from_end,
                    invert,
                    x,
                ) by {
                if x != i {
                    assert(dedup_scanned(start as int, end as int, from_end, p as int, x));
                    assert(duplicate_decided(same, c, before, start as int, end as int, from_end, invert, x));
                    assert forall|k: int| dedup_before(start as int, end as int, from_end, k, x) implies m@[k]
                        == before[k] by {
                        if k == i {
                            assert(!dedup_before(start as int, end as int, from_end, k, x));
                        }
                    }
                } else if !duplicate {
                    assert forall|k: int|
                        dedup_before(start as int, end as int, from_end, k, x) && !m@[k] implies answered_distinct(
                        same,
                        c[x],
                        c[k],
                        invert,
                    ) by {
                        let u = choose|u: int| 0 <= u < kept_before.len() && kept_before[u] == k;
                        assert(answered_distinct(same, c[i as int], c[kept_before[u] as int], invert));
                    }
                }
            }
        }
        p = p + 1;
    }
    Ok(m)
}

/// What kind of removal or substitution an operation name asks for:
/// whether it takes a predicate (`-IF`, `-IF-NOT`), whether it removes
/// duplicates, and whether the test is negated (`-IF-NOT`).
pub struct EditOperation {
    pub is_predicate: bool,
    pub removes_duplicates: bool,
    pub negated: bool,
}

/// The removal operations.
pub open spec fn removal_operation_of(op: Seq<char>) -> Option<EditOperation> {
    if op == "REMOVE"@ || op == "DELETE"@ {
        Some(EditOperation { is_predicate: false, removes_duplicates: false, negated: false })
    } else if op == "REMOVE-IF"@ || op == "DELETE-IF"@ {
        Some(EditOperation { is_predicate: true, removes_duplicates: false, negated: false })
    } else if op == "REMOVE-IF-NOT"@ || op == "DELETE-IF-NOT"@ {
        Some(EditOperation { is_predicate: true, removes_duplicates: false, negated: true })
    } else if op == "REMOVE-DUPLICATES"@ || op == "DELETE-DUPLICATES"@ {
        Some(EditOperation { is_predicate: false, removes_duplicates: true, negated: false })
    } else {
        None
    }
}

/// The substitution operations.
pub open spec fn substitution_operation_of(op: Seq<char>) -> Option<EditOperation> {
    if op == "SUBSTITUTE"@ || op == "NSUBSTITUTE"@ {
        Some(EditOperation { is_predicate: false, removes_duplicates: false, negated: false })
    } else if op == "SUBSTITUTE-IF"@ || op == "NSUBSTITUTE-IF"@ {
        Some(EditOperation { is_predicate: true, removes_duplicates: false, negated: false })
    } else if op == "SUBSTITUTE-IF-NOT"@ || op == "NSUBSTITUTE-IF-NOT"@ {
        Some(EditOperation { is_predicate: true, removes_duplicates: false, negated: true })
    } else {
        None
    }
}

/// The marks of the matches a count-limited operation acts on.
pub open spec fn selection(m: Seq<bool>, start: int, end: int, count: Option<usize>, from_end: bool) -> Seq<bool> {
    Seq::new(m.len(), |i: int| selected(m, start, end, count, from_end, i))
}

/// `items` with the marked elements replaced by `new_item`.
pub open spec fn replaced_by(items: Seq<Value>, marks: Seq<bool>, new_item: Value) -> Seq<Value> {
    Seq::new(
        items.len(),
        |i: int|
            if marks[i] {
                new_item
            } else {
                items[i]
            },
    )
}

impl Runtime {
    /// Reads a removal operation's name (see `removal_operation_of`).
    pub fn sequence_removal_operation(operation: &str, span: Span) -> (r: Result<EditOperation, RuntimeError>)
        ensures
            match removal_operation_of(operation@) {
                Some(o) => r == Ok::<EditOperation, RuntimeError>(o),
                None => r matches Err(e) && is_invalid(e, "unknown sequence removal operation"@, span),
            },
    {
        let op = chars_of(operation);
        if text_is(&op, "REMOVE") || text_is(&op, "DELETE") {
            Ok(EditOperation { is_predicate: false, removes_duplicates: false, negated: false })
        } else if text_is(&op, "REMOVE-IF") || text_is(&op, "DELETE-IF") {
            Ok(EditOperation { is_predicate: true, removes_duplicates: false, negated: false })
        } else if text_is(&op, "REMOVE-IF-NOT") || text_is(&op, "DELETE-IF-NOT") {
            Ok(EditOperation { is_predicate: true, removes_duplicates: false, negated: true })
        } else if text_is(&op, "REMOVE-DUPLICATES") || text_is(&op, "DELETE-DUPLICATES") {
            Ok(EditOperation { is_predicate: false, removes_duplicates: true, negated: false })
        } else {
            Err(invalid("unknown sequence removal operation", span))
        }
    }

    /// Reads a substitution operation's name (see
    /// `substitution_operation_of`).
    pub fn sequence_substitution_operation(operation: &str, span: Span) -> (r: Result<EditOperation, RuntimeError>)
        ensures
            match substitution_operation_of(operation@) {
                Some(o) => r == Ok::<EditOperation, RuntimeError>(o),
                None => r matches Err(e) && is_invalid(e, "unknown sequence substitution operation"@, span),
            },
    {
        let op = chars_of(operation);
        if text_is(&op, "SUBSTITUTE") || text_is(&op, "NSUBSTITUTE") {
            Ok(EditOperation { is_predicate: false, removes_duplicates: false, negated: false })
        } else if text_is(&op, "SUBSTITUTE-IF") || text_is(&op, "NSUBSTITUTE-IF") {
            Ok(EditOperation { is_predicate: true, removes_duplicates: false, negated: false })
        } else if text_is(&op, "SUBSTITUTE-IF-NOT") || text_is(&op, "NSUBSTITUTE-IF-NOT") {
            Ok(EditOperation { is_predicate: true, removes_duplicates: false, negated: true })
        } else {
            Err(invalid("unknown sequence substitution operation", span))
        }
    }

    /// A string only takes characters: the type error for another new item.
    pub fn substitution_item_check(kind: SequenceKind, new_item: &Value, span: Span) -> (r: Result<(), RuntimeError>)
        ensures
            (kind == SequenceKind::String && !(*new_item is Character)) ==> (r matches Err(e) && is_type_error(
                e,
                "CHARACTER"@,
                kind_name_of(*new_item),
                span,
            )),
            !(kind == SequenceKind::String && !(*new_item is Character)) ==> r is Ok,
    {
        match kind {
            SequenceKind::String => match new_item {
                Value::Character(_) => Ok(()),
                _ => Err(type_error("CHARACTER", new_item, span)),
            },
            _ => Ok(()),
        }
    }

    /// The sequence without the elements at the marked positions, of the
    /// same kind as the one taken apart.
    pub fn sequence_without_marked(items: SequenceItems, marks: &Vec<bool>, template: &Value, span: Span) -> (r:
        Result<Value, RuntimeError>)
        requires
            marks.len() == items.values.len(),
        ensures
            rebuilt_sequence(items.kind, kept_by(items.values@, marks@), span, r),
    {
        let kept = remove_marked(&items.values, marks);
        SequenceItems { kind: items.kind, values: kept }.into_value(template, span)
    }

    /// `REMOVE` and friends once the test has been answered for each
    /// element of `[start, end)` (`matched`): the matches that the count
    /// and direction select are dropped.
    pub fn sequence_remove_result(
        items: SequenceItems,
        start: usize,
        end: usize,
        count: Option<usize>,
        from_end: bool,
        matched: &Vec<bool>,
        template: &Value,
        span: Span,
    ) -> (r: Result<Value, RuntimeError>)
        requires
            start <= end <= items.values.len(),
            matched.len() == items.values.len(),
        ensures
            rebuilt_sequence(
                items.kind,
                kept_by(items.values@, selection(matched@, start as int, end as int, count, from_end)),
                span,
                r,
            ),
    {
        let marks = select_matches(matched, start, end, count, from_end);
        assert(marks@ =~= selection(matched@, start as int, end as int, count, from_end));
        Runtime::sequence_without_marked(items, &marks, template, span)
    }

    /// `SUBSTITUTE` and friends once the test has been answered for each
    /// element of `[start, end)` (`matched`): the selected matches become
    /// `new_item`.
    pub fn sequence_substitute_result(
        items: SequenceItems,
        new_item: &Value,
        start: usize,
        end: usize,
        count: Option<usize>,
        from_end: bool,
        matched: &Vec<bool>,
        template: &Value,
        span: Span,
    ) -> (r: Result<Value, RuntimeError>)
        requires
            start <= end <= items.values.len(),
            matched.len() == items.values.len(),
        ensures
            rebuilt_sequence(
                items.kind,
                replaced_by(items.values@, selection(matched@, start as int, end as int, count, from_end), *new_item),
                span,
                r,
            ),
    {
        let marks = select_matches(matched, start, end, count, from_end);
        let replaced = replace_marked(&items.values, &marks, new_item);
        assert(replaced@ =~= replaced_by(
            items.values@,
            selection(matched@, start as int, end as int, count, from_end),
            *new_item,
        ));
        SequenceItems { kind: items.kind, values: replaced }.into_value(template, span)
    }
}

proof fn lemma_count_local(m: Seq<bool>, n: Seq<bool>, a: int, b: int)
    requires
        forall|x: int| a <= x < b ==> m[x] == n[x],
    ensures
        count_marked(m, a, b) == count_marked(n, a, b),
    decreases b - a,
{
    if a < b {
        lemma_count_local(m, n, a, b - 1);
    }
}

proof fn lemma_selection_prefix(m: Seq<bool>, start: int, end: int, count: Option<usize>, i: int)
    requires
        0 <= start <= i <= end <= m.len(),
    ensures
        ({
            let sel = selection(m, start, end, count, false);
            let c = count_marked(m, start, i);
            let limit = match_limit(m, start, end, count);
            count_marked(sel, start, i) == if c < limit {
                c
            } else {
                limit
            }
        }),
    decreases i - start,
{
    if start < i {
        lemma_selection_prefix(m, start, end, count, i - 1);
    }
}

proof fn lemma_selection_suffix(m: Seq<bool>, start: int, end: int, count: Option<usize>, i: int)
    requires
        0 <= start <= i <= end <= m.len(),
    ensures
        ({
            let sel = selection(m, start, end, count, true);
            let c = count_marked(m, i, end);
            let limit = match_limit(m, start, end, count);
            count_marked(sel, i, end) == if c < limit {
                c
            } else {
                limit
            }
        }),
    decreases end - i,
{
    let sel = selection(m, start, end, count, true);
    if i < end {
        lemma_selection_suffix(m, start, end, count, i + 1);
        lemma_count_split(m, i, i + 1, end);
        lemma_count_split(sel, i, i + 1, end);
        assert(count_marked(m, i, i) == 0);
        assert(count_marked(sel, i, i) == 0);
    }
}

/// A count-limited removal or substitution acts on exactly as many
/// elements as its limit: all the matches in range, or `count` of them
/// when fewer.
pub proof fn lemma_selection_size(m: Seq<bool>, start: int, end: int, count: Option<usize>, from_end: bool)
    requires
        0 <= start <= end <= m.len(),
    ensures
        count_marked(selection(m, start, end, count, from_end), start, end) == match_limit(m, start, end, count),
{
    let limit = match_limit(m, start, end, count);
    assert(limit <= count_marked(m, start, end));
    if from_end {
        lemma_selection_suffix(m, start, end, count, start);
    } else {
        lemma_selection_prefix(m, start, end, count, end);
    }
}

/// Selected positions are matches inside the range.
pub proof fn lemma_selection_within(m: Seq<bool>, start: int, end: int, count: Option<usize>, from_end: bool, i: int)
    requires
        0 <= i < m.len(),
        selection(m, start, end, count, from_end)[i],
    ensures
        start <= i < end,
        m[i],
{
}

/// Removing the marked elements leaves as many as were not marked.
pub proof fn lemma_kept_length(items: Seq<Value>, marks: Seq<bool>)
    requires
        marks.len() == items.len(),
    ensures
        kept_by(items, marks).len() == items.len() - count_marked(marks, 0, items.len() as int),
    decreases items.len(),
{
    lemma_kept_length_prefix(items, marks, items.len());
    assert(items.take(items.len() as int) =~= items);
}

proof fn lemma_kept_length_prefix(items: Seq<Value>, marks: Seq<bool>, n: nat)
    requires
        marks.len() == items.len(),
        n <= items.len(),
    ensures
        kept_by(items.take(n as int), marks).len() == n - count_marked(marks, 0, n as int),
    decreases n,
{
    if n > 0 {
        lemma_kept_length_prefix(items, marks, (n - 1) as nat);
        assert(items.take(n as int).drop_last() =~= items.take(n - 1));
        lemma_count_bounded(marks, 0, n - 1);
    }
}

} // verus!
