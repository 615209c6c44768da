//! Searching sequences: `FIND`, `POSITION` and `COUNT` over one sequence,
//! `SEARCH` and `MISMATCH` over two. The tests that compare elements are the
//! caller's functions, passed in as closures; the contracts state the result
//! in terms of what those calls answered.
use vstd::prelude::*;
use crate::error::{invalid, is_invalid, RuntimeError};
use crate::runtime::Runtime;
use crate::sequence_edits::{count_marked, lemma_count_split, scanned, scanned_before};
use crate::syntax::Span;
use crate::text::{chars_of, text_is};
use crate::value::Value;

verus! {

/// `test` answered that `v` matches (does not, with `invert`).
pub open spec fn hits<F: Fn(&Value) -> Result<bool, RuntimeError>>(test: F, v: Value, invert: bool) -> bool {
    test.ensures((&v,), Ok::<bool, RuntimeError>(!invert))
}

/// `test` answered that `v` does not match.
pub open spec fn misses<F: Fn(&Value) -> Result<bool, RuntimeError>>(test: F, v: Value, invert: bool) -> bool {
    test.ensures((&v,), Ok::<bool, RuntimeError>(invert))
}

/// `marks` records, for each position in `[start, end)`, what `test`
/// answered for the element there.
pub open spec fn answered_marks<F: Fn(&Value) -> Result<bool, RuntimeError>>(
    test: F,
    items: Seq<Value>,
    start: int,
    end: int,
    invert: bool,
    marks: Seq<bool>,
) -> bool {
    &&& marks.len() == items.len()
    &&& forall|i: int|
        start <= i < end ==> test.ensures((&items[i],), Ok::<bool, RuntimeError>(#[trigger] marks[i] != invert))
}

/// Position `i` holds the first element of `[start, end)`, in scan order,
/// that `test` answered as a match.
pub open spec fn found_first<F: Fn(&Value) -> Result<bool, RuntimeError>>(
    test: F,
    items: Seq<Value>,
    start: int,
    end: int,
    from_end: bool,
    invert: bool,
    i: int,
) -> bool {
    &&& start <= i < end
    &&& hits(test, items[i], invert)
    &&& forall|j: int| scanned_before(start, end, from_end, j, i) ==> #[trigger] misses(test, items[j], invert)
}

/// `test` answered every element of `[start, end)` as a miss.
pub open spec fn none_found<F: Fn(&Value) -> Result<bool, RuntimeError>>(
    test: F,
    items: Seq<Value>,
    start: int,
    end: int,
    invert: bool,
) -> bool {
    forall|j: int| start <= j < end ==> #[trigger] misses(test, items[j], invert)
}

/// The position of the first element of `[start, end)`, in scan order,
/// that `test` matches: every element scanned before it was answered as a
/// miss. The first error a call returns ends the scan and is returned.
pub fn first_match<F: Fn(&Value) -> Result<bool, RuntimeError>>(
    items: &Vec<Value>,
    start: usize,
    end: usize,
    from_end: bool,
    invert: bool,
    test: F,
) -> (r: Result<Option<usize>, RuntimeError>)
    requires
        start <= end <= items.len(),
        forall|v: &Value| test.requires((v,)),
    ensures
        r matches Ok(Some(i)) ==> found_first(test, items@, start as int, end as int, from_end, invert, i as int),
        r matches Ok(None) ==> none_found(test, items@, start as int, end as int, invert),
        r matches Err(e) ==> exists|j: int|
            start <= j < end && #[trigger] test.ensures((&items@[j],), Err::<bool, RuntimeError>(e)),
{
    let mut q: usize = 0;
    while q < end - start
        invariant
            start <= end <= items.len(),
            q <= end - start,
            forall|v: &Value| test.requires((v,)),
            forall|j: int| scanned(start as int, end as int, from_end, q as int, j) ==> #[trigger] misses(
                test,
                items@[j],
                invert,
            ),
        decreases end - start - q,
    {
        let i: usize = if from_end {
            end - 1 - q
        } else {
            start + q
        };
        match test(&items[i]) {
            Ok(b) => {
                if b != invert {
                    assert(hits(test, items@[i as int], invert));
                    assert forall|j: int| scanned_before(start as int, end as int, from_end, j, i as int) implies #[trigger] misses(
                        test,
                        items@[j],
                        invert,
                    ) by {
                        assert(scanned(start as int, end as int, from_end, q as int, j));
                    }
                    return Ok(Some(i));
                }
                assert(misses(test, items@[i as int], invert));
            },
            Err(e) => {
                assert(test.ensures((&items@[i as int],), Err::<bool, RuntimeError>(e)));
                return Err(e);
            },
        }
        q = q + 1;
    }
    assert forall|j: int| start <= j < end implies #[trigger] misses(test, items@[j], invert) by {
        assert(scanned(start as int, end as int, from_end, q as int, j));
    }
    Ok(None)
}

/// Marking one more position adds one to the count of every range that
/// holds it.
proof fn lemma_count_mark(m: Seq<bool>, i: int, a: int, b: int)
    requires
        a <= i < b <= m.len(),
        0 <= a,
        !m[i],
    ensures
        count_marked(m.update(i, true), a, b) == count_marked(m, a, b) + 1,
    decreases b - a,
{
    let n = m.update(i, true);
    if b - 1 == i {
        lemma_count_unchanged(m, n, a, i);
    } else {
        lemma_count_mark(m, i, a, b - 1);
    }
}

proof fn lemma_count_none(m: Seq<bool>, a: int, b: int)
    requires
        forall|x: int| a <= x < b ==> !m[x],
    ensures
        count_marked(m, a, b) == 0,
    decreases b - a,
{
    if a < b {
        lemma_count_none(m, a, b - 1);
    }
}

proof fn lemma_count_unchanged(m: Seq<bool>, n: Seq<bool>, a: int, b: int)
    requires
        forall|x: int| a <= x < b ==> m[x] == n[x],
    ensures
        count_marked(m, a, b) == count_marked(n, a, b),
    decreases b - a,
{
    if a < b {
        lemma_count_unchanged(m, n, a, b - 1);
    }
}

/// Counts the elements of `[start, end)` that `test` matches, calling it
/// on each in scan order. The first error a call returns ends the scan.
pub fn count_matches<F: Fn(&Value) -> Result<bool, RuntimeError>>(
    items: &Vec<Value>,
    start: usize,
    end: usize,
    from_end: bool,
    invert: bool,
    test: F,
) -> (r: Result<usize, RuntimeError>)
    requires
        start <= end <= items.len(),
        forall|v: &Value| test.requires((v,)),
    ensures
        r matches Ok(n) ==> n <= end - start,
        r matches Ok(n) ==> exists|marks: Seq<bool>|
            #[trigger] answered_marks(test, items@, start as int, end as int, invert, marks) && n == count_marked(
                marks,
                start as int,
                end as int,
            ),
        r matches Err(e) ==> exists|j: int|
            start <= j < end && #[trigger] test.ensures((&items@[j],), Err::<bool, RuntimeError>(e)),
{
    let ghost mut marks: Seq<bool> = Seq::new(items.len() as nat, |i: int| false);
    proof {
        lemma_count_none(marks, start as int, end as int);
    }
    let mut count: usize = 0;
    let mut q: usize = 0;
    while q < end - start
        invariant
            start <= end <= items.len(),
            q <= end - start,
            forall|v: &Value| test.requires((v,)),
            marks.len() == items.len(),
            forall|j: int| 0 <= j < items.len() && !scanned(start as int, end as int, from_end, q as int, j) ==> !marks[j],
            forall|j: int|
                scanned(start as int, end as int, from_end, q as int, j) ==> test.ensures(
                    (&items@[j],),
                    Ok::<bool, RuntimeError>(#[trigger] marks[j] != invert),
                ),
            count == count_marked(marks, start as int, end as int),
            count <= q,
        decreases end - start - q,
    {
        let i: usize = if from_end {
            end - 1 - q
        } else {
            start + q
        };
        match test(&items[i]) {
            Ok(b) => {
                if b != invert {
                    proof {
                        lemma_count_mark(marks, i as int, start as int, end as int);
                        marks = marks.update(i as int, true);
                    }
                    count = count + 1;
                }
            },
            Err(e) => {
                assert(test.ensures((&items@[i as int],), Err::<bool, RuntimeError>(e)));
                return Err(e);
            },
        }
        q = q + 1;
    }
    assert(answered_marks(test, items@, start as int, end as int, invert, marks)) by {
        assert forall|j: int| start <= j < end implies test.ensures(
            (&items@[j],),
            Ok::<bool, RuntimeError>(#[trigger] marks[j] != invert),
        ) by {
            assert(scanned(start as int, end as int, from_end, q as int, j));
        }
    }
    Ok(count)
}

/// The position compared at offset `o` from `a`: forwards, or backwards
/// from just before `a`.
pub open spec fn at_offset(a: int, o: int, back: bool) -> int {
    if back {
        a - 1 - o
    } else {
        a + o
    }
}

/// `f` answered that the elements at offset `o` from `a` in `s1` and from
/// `b` in `s2` match (do not, with `invert`).
pub open spec fn offset_agrees<F: Fn(&Value, &Value) -> Result<bool, RuntimeError>>(
    f: F,
    s1: Seq<Value>,
    s2: Seq<Value>,
    a: int,
    b: int,
    back: bool,
    o: int,
    invert: bool,
) -> bool {
    f.ensures((&s1[at_offset(a, o, back)], &s2[at_offset(b, o, back)]), Ok::<bool, RuntimeError>(!invert))
}

/// `f` answered that the elements at offset `o` do not match.
pub open spec fn offset_differs<F: Fn(&Value, &Value) -> Result<bool, RuntimeError>>(
    f: F,
    s1: Seq<Value>,
    s2: Seq<Value>,
    a: int,
    b: int,
    back: bool,
    o: int,
    invert: bool,
) -> bool {
    f.ensures((&s1[at_offset(a, o, back)], &s2[at_offset(b, o, back)]), Ok::<bool, RuntimeError>(invert))
}

/// The first `len` offsets were all answered as matches.
pub open spec fn agrees_for<F: Fn(&Value, &Value) -> Result<bool, RuntimeError>>(
    f: F,
    s1: Seq<Value>,
    s2: Seq<Value>,
    a: int,
    b: int,
    back: bool,
    len: int,
    invert: bool,
) -> bool {
    forall|o: int| 0 <= o < len ==> #[trigger] offset_agrees(f, s1, s2, a, b, back, o, invert)
}

/// Offset `o` is the first answered as a mismatch.
pub open spec fn first_difference<F: Fn(&Value, &Value) -> Result<bool, RuntimeError>>(
    f: F,
    s1: Seq<Value>,
    s2: Seq<Value>,
    a: int,
    b: int,
    back: bool,
    o: int,
    invert: bool,
) -> bool {
    agrees_for(f, s1, s2, a, b, back, o, invert) && offset_differs(f, s1, s2, a, b, back, o, invert)
}

/// Compares the elements at offsets `0, 1, ...` below `len` until the
/// first mismatch; its offset, or None when all matched.
fn compare_run<F: Fn(&Value, &Value) -> Result<bool, RuntimeError>>(
    items1: &Vec<Value>,
    items2: &Vec<Value>,
    a: usize,
    b: usize,
    back: bool,
    len: usize,
    invert: bool,
    f: &F,
) -> (r: Result<Option<usize>, RuntimeError>)
    requires
        back ==> len <= a <= items1.len() && len <= b <= items2.len(),
        !back ==> a + len <= items1.len() && b + len <= items2.len(),
        forall|x: &Value, y: &Value| f.requires((x, y)),
    ensures
        r matches Ok(Some(o)) ==> o < len && first_difference(*f, items1@, items2@, a as int, b as int, back, o as int, invert),
        r matches Ok(None) ==> agrees_for(*f, items1@, items2@, a as int, b as int, back, len as int, invert),
        r matches Err(e) ==> exists|i: int, j: int|
            #[trigger] f.ensures((&items1@[i], &items2@[j]), Err::<bool, RuntimeError>(e)),
{
    let mut o: usize = 0;
    while o < len
        invariant
            o <= len,
            back ==> len <= a <= items1.len() && len <= b <= items2.len(),
            !back ==> a + len <= items1.len() && b + len <= items2.len(),
            forall|x: &Value, y: &Value| f.requires((x, y)),
            agrees_for(*f, items1@, items2@, a as int, b as int, back, o as int, invert),
        decreases len - o,
    {
        let i = if back {
            a - 1 - o
        } else {
            a + o
        };
        let j = if back {
            b - 1 - o
        } else {
            b + o
        };
        match f(&items1[i], &items2[j]) {
            Ok(answer) => {
                if answer == invert {
                    assert(offset_differs(*f, items1@, items2@, a as int, b as int, back, o as int, invert));
                    return Ok(Some(o));
                }
                assert(offset_agrees(*f, items1@, items2@, a as int, b as int, back, o as int, invert));
            },
            Err(e) => {
                assert(f.ensures((&items1@[i as int], &items2@[j as int]), Err::<bool, RuntimeError>(e)));
                return Err(e);
            },
        }
        o = o + 1;
    }
    Ok(None)
}

/// `SEARCH`: the first start position in `[start2, end2 - len1]`, in scan
/// order, at which every element of `items1[start1..end1]` was answered as
/// matching; every candidate scanned before it had a first mismatch.
pub open spec fn refuted<F: Fn(&Value, &Value) -> Result<bool, RuntimeError>>(
    f: F,
    s1: Seq<Value>,
    s2: Seq<Value>,
    start1: int,
    c: int,
    len1: int,
    invert: bool,
) -> bool {
    exists|o: int| 0 <= o < len1 && #[trigger] first_difference(f, s1, s2, start1, c, false, o, invert)
}

/// Whether candidate `c` comes before candidate `p` in the scan of
/// `[first, last]`.
pub open spec fn candidate_before(first: int, last: int, from_end: bool, c: int, p: int) -> bool {
    &&& first <= c <= last
    &&& if from_end {
        c > p
    } else {
        c < p
    }
}

/// Finds where `items1[start1..end1]` occurs in `items2[start2..end2]`,
/// scanning candidate positions from the front or from the end (see
/// `refuted`). None when the first range is the longer or no candidate fits.
pub fn search_subsequence<F: Fn(&Value, &Value) -> Result<bool, RuntimeError>>(
    items1: &Vec<Value>,
    start1: usize,
    end1: usize,
    items2: &Vec<Value>,
    start2: usize,
    end2: usize,
    from_end: bool,
    invert: bool,
    f: F,
) -> (r: Result<Option<usize>, RuntimeError>)
    requires
        start1 <= end1 <= items1.len(),
        start2 <= end2 <= items2.len(),
        forall|x: &Value, y: &Value| f.requires((x, y)),
    ensures
        r matches Ok(Some(p)) ==> end1 - start1 <= end2 - start2 && start2 <= p <= end2 - (end1 - start1)
            && agrees_for(f, items1@, items2@, start1 as int, p as int, false, end1 - start1, invert)
            && forall|c: int|
            candidate_before(start2 as int, end2 - (end1 - start1), from_end, c, p as int) ==> #[trigger] refuted(
                f,
                items1@,
                items2@,
                start1 as int,
                c,
                end1 - start1,
                invert,
            ),
        r matches Ok(None) ==> end1 - start1 > end2 - start2 || forall|c: int|
            start2 <= c <= end2 - (end1 - start1) ==> #[trigger] refuted(
                f,
                items1@,
                items2@,
                start1 as int,
                c,
                end1 - start1,
                invert,
            ),
        r matches Err(e) ==> exists|i: int, j: int|
            #[trigger] f.ensures((&items1@[i], &items2@[j]), Err::<bool, RuntimeError>(e)),
{
    let len1 = end1 - start1;
    let len2 = end2 - start2;
    if len1 > len2 {
        return Ok(None);
    }
    let last_start = end2 - len1;
    let spread = last_start - start2;
    let mut q: usize = 0;
    loop
        invariant
            start1 <= end1 <= items1.len(),
            start2 <= end2 <= items2.len(),
            len1 == end1 - start1,
            len1 <= end2 - start2,
            last_start == end2 - len1,
            spread == last_start - start2,
            q <= spread,
            forall|x: &Value, y: &Value| f.requires((x, y)),
            forall|c: int|
                start2 <= c <= last_start && (if from_end {
                    c > last_start - q
                } else {
                    c < start2 + q
                }) ==> #[trigger] refuted(f, items1@, items2@, start1 as int, c, len1 as int, invert),
        decreases spread - q,
    {
        let c: usize = if from_end {
            last_start - q
        } else {
            start2 + q
        };
        match compare_run(items1, items2, start1, c, false, len1, invert, &f) {
            Ok(None) => {
                assert forall|d: int|
                    candidate_before(start2 as int, last_start as int, from_end, d, c as int) implies #[trigger] refuted(
                    f,
                    items1@,
                    items2@,
                    start1 as int,
                    d,
                    len1 as int,
                    invert,
                ) by {}
                return Ok(Some(c));
            },
            Ok(Some(o)) => {
                assert(first_difference(f, items1@, items2@, start1 as int, c as int, false, o as int, invert));
                assert(refuted(f, items1@, items2@, start1 as int, c as int, len1 as int, invert));
            },
            Err(e) => {
                return Err(e);
            },
        }
        if q == spread {
            return Ok(None);
        }
        q = q + 1;
    }
}

/// `MISMATCH`: the position in the first sequence where the two ranges
/// first differ, compared from the front or from the end.
pub open spec fn mismatch_position(start1: int, end1: int, start2: int, end2: int, from_end: bool, o: int) -> int {
    if from_end {
        end1 - 1 - o + 1
    } else {
        start1 + o
    }
}

/// `MISMATCH` when the compared prefix (or suffix) matched throughout:
/// None for ranges of equal length, else the position just past the
/// common part.
pub open spec fn mismatch_tail(start1: int, end1: int, start2: int, end2: int, from_end: bool) -> Option<int> {
    let len1 = end1 - start1;
    let len2 = end2 - start2;
    if len1 == len2 {
        None
    } else if from_end {
        Some(start1 + if len1 > len2 {
            len1 - len2
        } else {
            0
        })
    } else {
        Some(start1 + if len1 < len2 {
            len1
        } else {
            len2
        })
    }
}

/// Where a comparison starts: at the start, or (backwards) at the end.
pub open spec fn origin(start: int, end: int, from_end: bool) -> int {
    if from_end {
        end
    } else {
        start
    }
}

/// The length over which `MISMATCH` compares: the shorter range's.
pub open spec fn common_length(start1: int, end1: int, start2: int, end2: int) -> int {
    if end1 - start1 < end2 - start2 {
        end1 - start1
    } else {
        end2 - start2
    }
}

/// What `MISMATCH` may return given what the comparisons answered: the
/// position of the first difference, or, when the compared part matched
/// throughout, the tail position (see `mismatch_tail`).
pub open spec fn mismatch_outcome<F: Fn(&Value, &Value) -> Result<bool, RuntimeError>>(
    f: F,
    items1: Seq<Value>,
    start1: int,
    end1: int,
    items2: Seq<Value>,
    start2: int,
    end2: int,
    from_end: bool,
    invert: bool,
    r: Option<usize>,
) -> bool {
    let common = common_length(start1, end1, start2, end2);
    let a = origin(start1, end1, from_end);
    let b = origin(start2, end2, from_end);
    match r {
        Some(x) => (exists|o: int|
            0 <= o < common && #[trigger] first_difference(f, items1, items2, a, b, from_end, o, invert) && x
                == mismatch_position(start1, end1, start2, end2, from_end, o)) || (agrees_for(
            f,
            items1,
            items2,
            a,
            b,
            from_end,
            common,
            invert,
        ) && mismatch_tail(start1, end1, start2, end2, from_end) == Some(x as int)),
        None => agrees_for(f, items1, items2, a, b, from_end, common, invert) && mismatch_tail(
            start1,
            end1,
            start2,
            end2,
            from_end,
        ) is None,
    }
}

/// Where `items1[start1..end1]` and `items2[start2..end2]` first differ,
/// comparing from the front (or from the end) over the shorter length
/// (see `mismatch_outcome`).
pub fn find_mismatch<F: Fn(&Value, &Value) -> Result<bool, RuntimeError>>(
    items1: &Vec<Value>,
    start1: usize,
    end1: usize,
    items2: &Vec<Value>,
    start2: usize,
    end2: usize,
    from_end: bool,
    invert: bool,
    f: F,
) -> (r: Result<Option<usize>, RuntimeError>)
    requires
        start1 <= end1 <= items1.len(),
        start2 <= end2 <= items2.len(),
        forall|x: &Value, y: &Value| f.requires((x, y)),
    ensures
        r matches Ok(m) ==> mismatch_outcome(
            f,
            items1@,
            start1 as int,
            end1 as int,
            items2@,
            start2 as int,
            end2 as int,
            from_end,
            invert,
            m,
        ),
        r matches Err(e) ==> exists|i: int, j: int|
            #[trigger] f.ensures((&items1@[i], &items2@[j]), Err::<bool, RuntimeError>(e)),
{
    let len1 = end1 - start1;
    let len2 = end2 - start2;
    let common = if len1 < len2 {
        len1
    } else {
        len2
    };
    let a = if from_end {
        end1
    } else {
        start1
    };
    let b = if from_end {
        end2
    } else {
        start2
    };
    match compare_run(items1, items2, a, b, from_end, common, invert, &f) {
        Err(e) => Err(e),
        Ok(Some(o)) => {
            assert(first_difference(f, items1@, items2@, a as int, b as int, from_end, o as int, invert));
            let x = if from_end {
                end1 - 1 - o + 1
            } else {
                start1 + o
            };
            assert(first_difference(
                f,
                items1@,
                items2@,
                origin(start1 as int, end1 as int, from_end),
                origin(start2 as int, end2 as int, from_end),
                from_end,
                o as int,
                invert,
            ));
            Ok(Some(x))
        },
        Ok(None) => {
            if len1 == len2 {
                Ok(None)
            } else if from_end {
                Ok(
                    Some(
                        start1 + if len1 > len2 {
                            len1 - len2
                        } else {
                            0
                        },
                    ),
                )
            } else {
                Ok(Some(start1 + common))
            }
        },
    }
}

/// The value of a position.
fn position_value(i: usize) -> (r: Value)
    requires
        i <= i64::MAX,
    ensures
        r == Value::Integer(i as i64),
{
    Value::Integer(i as i64)
}

/// The operations over one sequence.
pub open spec fn search_operation(op: Seq<char>) -> bool {
    op == "FIND"@ || op == "POSITION"@ || op == "COUNT"@
}

/// What `FIND`, `POSITION` and `COUNT` return over `[start, end)` given
/// what the test answered: the first matching element or its position
/// (`NIL` when none matched), or the number of matches.
pub open spec fn search_result<F: Fn(&Value) -> Result<bool, RuntimeError>>(
    op: Seq<char>,
    test: F,
    items: Seq<Value>,
    start: int,
    end: int,
    from_end: bool,
    invert: bool,
    v: Value,
) -> bool {
    if op == "COUNT"@ {
        exists|marks: Seq<bool>|
            #[trigger] answered_marks(test, items, start, end, invert, marks) && v == Value::Integer(
                count_marked(marks, start, end) as i64,
            )
    } else {
        (v == Value::Nil && none_found(test, items, start, end, invert)) || exists|i: int|
            #[trigger] found_first(test, items, start, end, from_end, invert, i) && v == if op == "FIND"@ {
                items[i]
            } else {
                Value::Integer(i as i64)
            }
    }
}

/// The pair operations over two sequences.
pub open spec fn pair_search_operation(op: Seq<char>) -> bool {
    op == "SEARCH"@ || op == "MISMATCH"@
}

/// What `SEARCH` or `MISMATCH` of `xs1[start1..end1]` against
/// `xs2[start2..end2]` gives, `f` being the caller's key and test: an
/// unknown operation is invalid; `SEARCH` gives the first (the last with
/// `from_end`) start in `xs2` where every element agrees, `NIL` when there
/// is none; `MISMATCH` the position in `xs1` of the first disagreement
/// (see `mismatch_outcome`); errors come only from `f`.
pub open spec fn pair_searched<F: Fn(&Value, &Value) -> Result<bool, RuntimeError>>(
    op: Seq<char>,
    f: F,
    xs1: Seq<Value>,
    start1: int,
    end1: int,
    xs2: Seq<Value>,
    start2: int,
    end2: int,
    from_end: bool,
    invert: bool,
    span: Span,
    r: Result<Value, RuntimeError>,
) -> bool {
    &&& (!pair_search_operation(op) ==> (r matches Err(e) && is_invalid(
        e,
        "unknown sequence pair search operation"@,
        span,
    )))
    &&& (op == "SEARCH"@ ==> (r matches Ok(v) ==> (v == Value::Nil && (end1 - start1 > end2 - start2
        || forall|c: int|
        start2 <= c <= end2 - (end1 - start1) ==> #[trigger] refuted(
            f,
            xs1,
            xs2,
            start1,
            c,
            end1 - start1,
            invert,
        ))) || exists|p: int|
        start2 <= p <= end2 - (end1 - start1) && v == Value::Integer(p as i64) && #[trigger] agrees_for(
            f,
            xs1,
            xs2,
            start1,
            p,
            false,
            end1 - start1,
            invert,
        ) && forall|c: int|
            candidate_before(start2, end2 - (end1 - start1), from_end, c, p) ==> #[trigger] refuted(
                f,
                xs1,
                xs2,
                start1,
                c,
                end1 - start1,
                invert,
            )))
    &&& (op == "MISMATCH"@ ==> (r matches Ok(v) ==> exists|m: Option<usize>|
        #[trigger] mismatch_outcome(
            f,
            xs1,
            start1,
            end1,
            xs2,
            start2,
            end2,
            from_end,
            invert,
            m,
        ) && v == match m {
            Some(x) => Value::Integer(x as i64),
            None => Value::Nil,
        }))
    &&& (pair_search_operation(op) ==> (r matches Err(e) ==> exists|i: int, j: int|
        #[trigger] f.ensures((&xs1[i], &xs2[j]), Err::<bool, RuntimeError>(e))))
}

impl Runtime {
    /// `FIND`, `POSITION` or `COUNT` of the elements of `items[start..end]`
    /// that `test` (the caller's key and test) matches, scanning from the
    /// front or from the end (see `search_result`). An unknown operation is
    /// reported once the scan meets a match or ends.
    pub fn sequence_search_result<F: Fn(&Value) -> Result<bool, RuntimeError>>(
        operation: &str,
        items: &Vec<Value>,
        start: usize,
        end: usize,
        from_end: bool,
        invert: bool,
        test: F,
        span: Span,
    ) -> (r: Result<Value, RuntimeError>)
        requires
            start <= end <= items.len(),
            end <= i64::MAX,
            forall|v: &Value| test.requires((v,)),
        ensures
            search_operation(operation@) ==> (r matches Ok(v) ==> search_result(
                operation@,
                test,
                items@,
                start as int,
                end as int,
                from_end,
                invert,
                v,
            )),
            !search_operation(operation@) ==> (r matches Err(e) && (is_invalid(
                e,
                "unknown sequence search operation"@,
                span,
            ) || exists|j: int|
                start <= j < end && #[trigger] test.ensures((&items@[j],), Err::<bool, RuntimeError>(e)))),
            r matches Err(e) ==> (!search_operation(operation@) && is_invalid(
                e,
                "unknown sequence search operation"@,
                span,
            )) || exists|j: int|
                start <= j < end && #[trigger] test.ensures((&items@[j],), Err::<bool, RuntimeError>(e)),
    {
        let op = chars_of(operation);
        if text_is(&op, "COUNT") {
            let n = count_matches(items, start, end, from_end, invert, test)?;
            proof {
                let marks = choose|marks: Seq<bool>|
                    #[trigger] answered_marks(test, items@, start as int, end as int, invert, marks) && n
                        == count_marked(marks, start as int, end as int);
                assert(answered_marks(test, items@, start as int, end as int, invert, marks));
            }
            return Ok(position_value(n));
        }
        let found = first_match(items, start, end, from_end, invert, test)?;
        if text_is(&op, "FIND") {
            match found {
                Some(i) => {
                    assert(found_first(test, items@, start as int, end as int, from_end, invert, i as int));
                    Ok(items[i].clone())
                },
                None => Ok(Value::Nil),
            }
        } else if text_is(&op, "POSITION") {
            match found {
                Some(i) => {
                    assert(found_first(test, items@, start as int, end as int, from_end, invert, i as int));
                    Ok(position_value(i))
                },
                None => Ok(Value::Nil),
            }
        } else {
            Err(invalid("unknown sequence search operation", span))
        }
    }

    /// `SEARCH` (see `search_subsequence`) or `MISMATCH` (see
    /// `find_mismatch`) of `items1[start1..end1]` against
    /// `items2[start2..end2]`, as a position or `NIL`; `f` is the caller's
    /// key and test.
    pub fn pair_search_result<F: Fn(&Value, &Value) -> Result<bool, RuntimeError>>(
        operation: &str,
        items1: &Vec<Value>,
        start1: usize,
        end1: usize,
        items2: &Vec<Value>,
        start2: usize,
        end2: usize,
        from_end: bool,
        invert: bool,
        f: F,
        span: Span,
    ) -> (r: Result<Value, RuntimeError>)
        requires
            start1 <= end1 <= items1.len(),
            start2 <= end2 <= items2.len(),
            end1 <= i64::MAX,
            end2 <= i64::MAX,
            forall|x: &Value, y: &Value| f.requires((x, y)),
        ensures
            pair_searched(
                operation@,
                f,
                items1@,
                start1 as int,
                end1 as int,
                items2@,
                start2 as int,
                end2 as int,
                from_end,
                invert,
                span,
                r,
            ),
    {
        let op = chars_of(operation);
        if text_is(&op, "SEARCH") {
            proof {
                reveal_strlit("SEARCH");
                reveal_strlit("MISMATCH");
                assert(op@ == "SEARCH"@);
                assert("SEARCH"@.len() != "MISMATCH"@.len());
                assert(operation@ != "MISMATCH"@);
            }
            match search_subsequence(items1, start1, end1, items2, start2, end2, from_end, invert, f)? {
                Some(p) => {
                    assert(agrees_for(f, items1@, items2@, start1 as int, p as int, false, end1 - start1, invert));
                    Ok(position_value(p))
                },
                None => Ok(Value::Nil),
            }
        } else if text_is(&op, "MISMATCH") {
            let m = find_mismatch(items1, start1, end1, items2, start2, end2, from_end, invert, f)?;
            assert(mismatch_outcome(
                f,
                items1@,
                start1 as int,
                end1 as int,
                items2@,
                start2 as int,
                end2 as int,
                from_end,
                invert,
                m,
            ));
            match m {
                Some(x) => {
                    proof {
                        lemma_mismatch_in_range(f, items1@, start1 as int, end1 as int, items2@, start2 as int, end2 as int, from_end, invert, x);
                    }
                    let v = position_value(x);
                    Ok(v)
                },
                None => {
                    Ok(Value::Nil)
                },
            }
        } else {
            Err(invalid("unknown sequence pair search operation", span))
        }
    }
}

/// A `MISMATCH` position lies within the first range's ends.
proof fn lemma_mismatch_in_range<F: Fn(&Value, &Value) -> Result<bool, RuntimeError>>(
    f: F,
    items1: Seq<Value>,
    start1: int,
    end1: int,
    items2: Seq<Value>,
    start2: int,
    end2: int,
    from_end: bool,
    invert: bool,
    x: usize,
)
    requires
        start1 <= end1,
        start2 <= end2,
        mismatch_outcome(f, items1, start1, end1, items2, start2, end2, from_end, invert, Some(x)),
    ensures
        x <= end1,
{
}

/// The positions compared at offset `o` by `MISMATCH`: from the starts
/// forwards, or from the ends backwards.
pub open spec fn compared_at(start: int, end: int, from_end: bool, o: int) -> int {
    if from_end {
        end - 1 - o
    } else {
        start + o
    }
}

/// What `MISMATCH` returns, in terms of what `f` answered on the elements:
/// for a position `x`, the `m` elements compared before it (the `m` first
/// from the front, or the `m` last from the end, `x` being `start1 + m` or
/// `end1 - m`) all matched, and either the next pair compared did not, or
/// the shorter range was used up (`m` its length) while the other was not;
/// `NIL` only for ranges of equal length that matched throughout.
pub proof fn lemma_mismatch_meaning<F: Fn(&Value, &Value) -> Result<bool, RuntimeError>>(
    f: F,
    items1: Seq<Value>,
    start1: int,
    end1: int,
    items2: Seq<Value>,
    start2: int,
    end2: int,
    from_end: bool,
    invert: bool,
    r: Option<usize>,
)
    requires
        start1 <= end1,
        start2 <= end2,
        mismatch_outcome(f, items1, start1, end1, items2, start2, end2, from_end, invert, r),
    ensures
        match r {
            None => end1 - start1 == end2 - start2 && forall|o: int|
                #![trigger compared_at(start1, end1, from_end, o)]
                0 <= o < end1 - start1 ==> f.ensures(
                    (&items1[compared_at(start1, end1, from_end, o)], &items2[compared_at(start2, end2, from_end, o)]),
                    Ok::<bool, RuntimeError>(!invert),
                ),
            Some(x) => {
                let m = if from_end {
                    end1 - x
                } else {
                    x - start1
                };
                &&& 0 <= m <= end1 - start1
                &&& m <= end2 - start2
                &&& forall|o: int|
                    #![trigger compared_at(start1, end1, from_end, o)]
                    0 <= o < m ==> f.ensures(
                        (
                            &items1[compared_at(start1, end1, from_end, o)],
                            &items2[compared_at(start2, end2, from_end, o)],
                        ),
                        Ok::<bool, RuntimeError>(!invert),
                    )
                &&& (m < end1 - start1 && m < end2 - start2) ==> f.ensures(
                    (&items1[compared_at(start1, end1, from_end, m)], &items2[compared_at(start2, end2, from_end, m)]),
                    Ok::<bool, RuntimeError>(invert),
                )
                &&& (m == end1 - start1 || m == end2 - start2) ==> end1 - start1 != end2 - start2
            },
        },
{
    let common = common_length(start1, end1, start2, end2);
    let a = origin(start1, end1, from_end);
    let b = origin(start2, end2, from_end);
    assert forall|o: int| #![trigger compared_at(start1, end1, from_end, o)] 0 <= o < common implies at_offset(a, o, from_end) == compared_at(start1, end1, from_end, o)
        && at_offset(b, o, from_end) == compared_at(start2, end2, from_end, o) by {}
    match r {
        None => {
            assert forall|o: int| #![trigger compared_at(start1, end1, from_end, o)] 0 <= o < end1 - start1 implies f.ensures(
                (&items1[compared_at(start1, end1, from_end, o)], &items2[compared_at(start2, end2, from_end, o)]),
                Ok::<bool, RuntimeError>(!invert),
            ) by {
                assert(offset_agrees(f, items1, items2, a, b, from_end, o, invert));
            }
        },
        Some(x) => {
            let m = if from_end {
                end1 - x
            } else {
                x - start1
            };
            if exists|o: int|
                0 <= o < common && #[trigger] first_difference(f, items1, items2, a, b, from_end, o, invert) && x
                    == mismatch_position(start1, end1, start2, end2, from_end, o) {
                let o = choose|o: int|
                    0 <= o < common && #[trigger] first_difference(f, items1, items2, a, b, from_end, o, invert) && x
                        == mismatch_position(start1, end1, start2, end2, from_end, o);
                assert(m == o);
                assert(offset_differs(f, items1, items2, a, b, from_end, o, invert));
                assert forall|t: int| #![trigger compared_at(start1, end1, from_end, t)] 0 <= t < m implies f.ensures(
                    (&items1[compared_at(start1, end1, from_end, t)], &items2[compared_at(start2, end2, from_end, t)]),
                    Ok::<bool, RuntimeError>(!invert),
                ) by {
                    assert(offset_agrees(f, items1, items2, a, b, from_end, t, invert));
                }
            } else {
                assert(m == common);
                assert forall|t: int| #![trigger compared_at(start1, end1, from_end, t)] 0 <= t < m implies f.ensures(
                    (&items1[compared_at(start1, end1, from_end, t)], &items2[compared_at(start2, end2, from_end, t)]),
                    Ok::<bool, RuntimeError>(!invert),
                ) by {
                    assert(offset_agrees(f, items1, items2, a, b, from_end, t, invert));
                }
            }
        },
    }
}

} // verus!
