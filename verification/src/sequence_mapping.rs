//! `REDUCE` and the mapping functions (`MAP`, `MAP-INTO`, `MAPCAR` and
//! friends): the order in which the caller's functions are applied and what
//! is made of their results. The functions are passed in as closures; the
//! contracts state the result in terms of what the calls answered.
use vstd::prelude::*;
use crate::error::{invalid, is_invalid, is_type_error, type_error, RuntimeError};
use crate::packages::message_with;
use crate::runtime::Runtime;
use crate::sequence_options::SequenceKind;
use crate::syntax::{normalize, normalize_text, Span};
use crate::text::{chars_of, downcase_seq, downcase_text, text_is};
use crate::value::{kind_name_of, list_items_of, symbol_name_of, Value};

verus! {

/// The elements `REDUCE` folds, in the order it takes them: `[start, end)`
/// from the front, or from the end.
pub open spec fn reduce_order(items: Seq<Value>, start: int, end: int, from_end: bool) -> Seq<Value> {
    if from_end {
        items.subrange(start, end).reverse()
    } else {
        items.subrange(start, end)
    }
}

/// `keys` and `accs` record a fold of `xs`: each element's key is what
/// `key_fn` answered, and each next accumulator what `function` answered
/// for the accumulator and the key (the key and the accumulator when
/// folding from the end).
pub open spec fn fold_trace<K: Fn(&Value) -> Result<Value, RuntimeError>, F: Fn(&Value, &Value) -> Result<
    Value,
    RuntimeError,
>>(key_fn: K, function: F, xs: Seq<Value>, from_end: bool, keys: Seq<Value>, accs: Seq<Value>) -> bool {
    &&& keys.len() == xs.len()
    &&& accs.len() == xs.len() + 1
    &&& forall|k: int|
        0 <= k < xs.len() ==> #[trigger] key_fn.ensures((&xs[k],), Ok::<Value, RuntimeError>(keys[k]))
    &&& forall|k: int|
        0 <= k < xs.len() ==> #[trigger] fold_step(function, from_end, accs[k], keys[k], accs[k + 1])
}

/// `next` is what `function` answered for one step of a fold.
pub open spec fn fold_step<F: Fn(&Value, &Value) -> Result<Value, RuntimeError>>(
    function: F,
    from_end: bool,
    acc: Value,
    key: Value,
    next: Value,
) -> bool {
    if from_end {
        function.ensures((&key, &acc), Ok::<Value, RuntimeError>(next))
    } else {
        function.ensures((&acc, &key), Ok::<Value, RuntimeError>(next))
    }
}

/// What `REDUCE` gives over the elements `xs` in fold order: the initial
/// value when there are no elements (an error without one); otherwise the
/// last accumulator of a fold that starts from the initial value, or from
/// the first element's key over the remaining elements.
pub open spec fn reduced<K: Fn(&Value) -> Result<Value, RuntimeError>, F: Fn(&Value, &Value) -> Result<
    Value,
    RuntimeError,
>>(key_fn: K, function: F, xs: Seq<Value>, from_end: bool, initial: Option<Value>, r: Value) -> bool {
    match initial {
        Some(v) => exists|keys: Seq<Value>, accs: Seq<Value>|
            #[trigger] fold_trace(key_fn, function, xs, from_end, keys, accs) && accs[0] == v && r == accs.last(),
        None => xs.len() > 0 && exists|keys: Seq<Value>, accs: Seq<Value>|
            #[trigger] fold_trace(key_fn, function, xs.drop_first(), from_end, keys, accs) && key_fn.ensures(
                (&xs[0],),
                Ok::<Value, RuntimeError>(accs[0]),
            ) && r == accs.last(),
    }
}

/// The elements of `items[start..end]` in fold order.
fn fold_order(items: &Vec<Value>, start: usize, end: usize, from_end: bool) -> (r: Vec<Value>)
    requires
        start <= end <= items.len(),
    ensures
        r@ == reduce_order(items@, start as int, end as int, from_end),
{
    let mut out: Vec<Value> = Vec::new();
    let mut q: usize = 0;
    while q < end - start
        invariant
            start <= end <= items.len(),
            q <= end - start,
            out.len() == q,
            forall|x: int|
                0 <= x < q ==> out@[x] == if from_end {
                    items@[end - 1 - x]
                } else {
                    items@[start + x]
                },
        decreases end - start - q,
    {
        if from_end {
            out.push(items[end - 1 - q].clone());
        } else {
            out.push(items[start + q].clone());
        }
        q = q + 1;
    }
    assert(out@ =~= reduce_order(items@, start as int, end as int, from_end));
    out
}

/// Folds `xs` from `first` on, starting from `acc` (see `fold_trace`).
fn fold_from<K: Fn(&Value) -> Result<Value, RuntimeError>, F: Fn(&Value, &Value) -> Result<Value, RuntimeError>>(
    xs: &Vec<Value>,
    first: usize,
    acc: Value,
    from_end: bool,
    key_fn: &K,
    function: &F,
) -> (r: Result<Value, RuntimeError>)
    requires
        first <= xs.len(),
        forall|v: &Value| key_fn.requires((v,)),
        forall|a: &Value, b: &Value| function.requires((a, b)),
    ensures
        r matches Ok(v) ==> exists|keys: Seq<Value>, accs: Seq<Value>|
            #[trigger] fold_trace(*key_fn, *function, xs@.skip(first as int), from_end, keys, accs) && accs[0]
                == acc && v == accs.last(),
        r matches Err(e) ==> (exists|v: Value| #[trigger] key_fn.ensures((&v,), Err::<Value, RuntimeError>(e)))
            || (exists|a: Value, b: Value| #[trigger] function.ensures((&a, &b), Err::<Value, RuntimeError>(e))),
{
    let ghost rest = xs@.skip(first as int);
    let ghost mut keys: Seq<Value> = Seq::empty();
    let ghost mut accs: Seq<Value> = seq![acc];
    let mut current = acc;
    let mut i: usize = first;
    while i < xs.len()
        invariant
            first <= i <= xs.len(),
            rest == xs@.skip(first as int),
            forall|v: &Value| key_fn.requires((v,)),
            forall|a: &Value, b: &Value| function.requires((a, b)),
            keys.len() == i - first,
            accs.len() == i - first + 1,
            accs[0] == acc,
            accs.last() == current,
            forall|k: int|
                0 <= k < i - first ==> #[trigger] key_fn.ensures((&rest[k],), Ok::<Value, RuntimeError>(keys[k])),
            forall|k: int|
                0 <= k < i - first ==> #[trigger] fold_step(*function, from_end, accs[k], keys[k], accs[k + 1]),
        decreases xs.len() - i,
    {
        let key = match key_fn(&xs[i]) {
            Ok(k) => k,
            Err(e) => {
                assert(key_fn.ensures((&xs@[i as int],), Err::<Value, RuntimeError>(e)));
                return Err(e);
            },
        };
        let step = if from_end {
            function(&key, &current)
        } else {
            function(&current, &key)
        };
        let next = match step {
            Ok(n) => n,
            Err(e) => {
                if from_end {
                    assert(function.ensures((&key, &current), Err::<Value, RuntimeError>(e)));
                } else {
                    assert(function.ensures((&current, &key), Err::<Value, RuntimeError>(e)));
                }
                return Err(e);
            },
        };
        proof {
            let k = i - first;
            assert(rest[k] == xs@[i as int]);
            assert(fold_step(*function, from_end, accs.last(), key, next));
            keys = keys.push(key);
            accs = accs.push(next);
        }
        current = next;
        i = i + 1;
    }
    assert(fold_trace(*key_fn, *function, rest, from_end, keys, accs));
    Ok(current)
}

/// `REDUCE` over `items[start..end]` (see `reduced`): `key_fn` is the
/// caller's key, `function` the reducing function. The first error a call
/// returns ends the fold and is returned.
pub fn reduce_values<K: Fn(&Value) -> Result<Value, RuntimeError>, F: Fn(&Value, &Value) -> Result<
    Value,
    RuntimeError,
>>(
    items: &Vec<Value>,
    start: usize,
    end: usize,
    from_end: bool,
    initial: Option<Value>,
    key_fn: K,
    function: F,
    span: Span,
) -> (r: Result<Value, RuntimeError>)
    requires
        start <= end <= items.len(),
        forall|v: &Value| key_fn.requires((v,)),
        forall|a: &Value, b: &Value| function.requires((a, b)),
    ensures
        start == end && initial is None ==> (r matches Err(e) && is_invalid(
            e,
            "reduce of an empty sequence"@,
            span,
        )),
        r matches Ok(v) ==> reduced(
            key_fn,
            function,
            reduce_order(items@, start as int, end as int, from_end),
            from_end,
            initial,
            v,
        ),
        start == end && initial is Some ==> r == Ok::<Value, RuntimeError>(initial->0),
        r matches Err(e) ==> (start == end && initial is None && is_invalid(e, "reduce of an empty sequence"@, span))
            || (exists|v: Value| #[trigger] key_fn.ensures((&v,), Err::<Value, RuntimeError>(e))) || (exists|
            a: Value,
            b: Value,
        | #[trigger] function.ensures((&a, &b), Err::<Value, RuntimeError>(e))),
{
    let xs = fold_order(items, start, end, from_end);
    match initial {
        Some(v) => {
            if xs.len() == 0 {
                assert(fold_trace(key_fn, function, xs@, from_end, Seq::empty(), seq![v]));
                return Ok(v);
            }
            let r = fold_from(&xs, 0, v, from_end, &key_fn, &function);
            proof {
                assert(xs@.skip(0) =~= xs@);
            }
            r
        },
        None => {
            if xs.len() == 0 {
                return Err(invalid("reduce of an empty sequence", span));
            }
            let acc = match key_fn(&xs[0]) {
                Ok(k) => k,
                Err(e) => {
                    assert(key_fn.ensures((&xs@[0],), Err::<Value, RuntimeError>(e)));
                    return Err(e);
                },
            };
            let r = fold_from(&xs, 1, acc, from_end, &key_fn, &function);
            proof {
                assert(xs@.skip(1) =~= xs@.drop_first());
            }
            r
        },
    }
}

/// The arguments a mapping function gets at position `k`: element `k` of
/// each sequence.
pub open spec fn column(sequences: Seq<Vec<Value>>, k: int, args: Seq<Value>) -> bool {
    &&& args.len() == sequences.len()
    &&& forall|s: int| 0 <= s < sequences.len() ==> #[trigger] args[s] == sequences[s]@[k]
}

/// The length of the shortest sequence, or `limit` when that is shorter
/// (no sequences: `limit`).
pub open spec fn shortest_from(sequences: Seq<Vec<Value>>, limit: int) -> int
    decreases sequences.len(),
{
    if sequences.len() == 0 {
        limit
    } else {
        let rest = shortest_from(sequences.drop_last(), limit);
        let l = sequences.last()@.len() as int;
        if l < rest {
            l
        } else {
            rest
        }
    }
}

proof fn lemma_shortest_bounds(sequences: Seq<Vec<Value>>, limit: int)
    requires
        limit >= 0,
    ensures
        0 <= shortest_from(sequences, limit) <= limit,
        forall|s: int| 0 <= s < sequences.len() ==> shortest_from(sequences, limit) <= #[trigger] sequences[s]@.len(),
    decreases sequences.len(),
{
    if sequences.len() > 0 {
        lemma_shortest_bounds(sequences.drop_last(), limit);
        assert forall|s: int| 0 <= s < sequences.len() implies shortest_from(sequences, limit)
            <= #[trigger] sequences[s]@.len() by {
            if s < sequences.len() - 1 {
                assert(sequences.drop_last()[s] == sequences[s]);
            }
        }
    }
}

/// The length of the shortest sequence, at most `limit`.
pub fn shortest_length(sequences: &Vec<Vec<Value>>, limit: usize) -> (r: usize)
    ensures
        r == shortest_from(sequences@, limit as int),
        r <= limit,
        forall|s: int| 0 <= s < sequences.len() ==> r <= #[trigger] sequences@[s]@.len(),
{
    proof {
        lemma_shortest_bounds(sequences@, limit as int);
    }
    let mut length = limit;
    let mut s: usize = 0;
    while s < sequences.len()
        invariant
            s <= sequences.len(),
            length == shortest_from(sequences@.take(s as int), limit as int),
        decreases sequences.len() - s,
    {
        assert(sequences@.take(s + 1).drop_last() =~= sequences@.take(s as int));
        if sequences[s].len() < length {
            length = sequences[s].len();
        }
        s = s + 1;
    }
    assert(sequences@.take(sequences.len() as int) =~= sequences@);
    length
}

/// The arguments at position `k`.
pub fn column_at(sequences: &Vec<Vec<Value>>, k: usize) -> (r: Vec<Value>)
    requires
        forall|s: int| 0 <= s < sequences.len() ==> k < #[trigger] sequences@[s]@.len(),
    ensures
        column(sequences@, k as int, r@),
{
    let mut args: Vec<Value> = Vec::new();
    let mut s: usize = 0;
    while s < sequences.len()
        invariant
            s <= sequences.len(),
            forall|t: int| 0 <= t < sequences.len() ==> k < #[trigger] sequences@[t]@.len(),
            args.len() == s,
            forall|t: int| 0 <= t < s ==> #[trigger] args@[t] == sequences@[t]@[k as int],
        decreases sequences.len() - s,
    {
        args.push(sequences[s][k].clone());
        s = s + 1;
    }
    args
}

/// `f` answered `result` for the arguments at position `k`.
pub open spec fn mapped_at<F: Fn(&Vec<Value>) -> Result<Value, RuntimeError>>(
    f: F,
    sequences: Seq<Vec<Value>>,
    k: int,
    result: Value,
) -> bool {
    exists|args: Vec<Value>| column(sequences, k, args@) && #[trigger] f.ensures((&args,), Ok::<Value, RuntimeError>(result))
}

/// Applies `f` to the elements at each position below `length`, in order,
/// and collects the results. The first error a call returns ends the
/// mapping and is returned.
pub fn map_columns<F: Fn(&Vec<Value>) -> Result<Value, RuntimeError>>(
    sequences: &Vec<Vec<Value>>,
    length: usize,
    f: F,
) -> (r: Result<Vec<Value>, RuntimeError>)
    requires
        forall|s: int| 0 <= s < sequences.len() ==> length <= #[trigger] sequences@[s]@.len(),
        forall|args: &Vec<Value>| f.requires((args,)),
    ensures
        r matches Ok(results) ==> results.len() == length && forall|k: int|
            0 <= k < length ==> #[trigger] mapped_at(f, sequences@, k, results@[k]),
        r matches Err(e) ==> exists|args: Vec<Value>| #[trigger] f.ensures((&args,), Err::<Value, RuntimeError>(e)),
{
    let mut results: Vec<Value> = Vec::new();
    let mut k: usize = 0;
    while k < length
        invariant
            k <= length,
            forall|s: int| 0 <= s < sequences.len() ==> length <= #[trigger] sequences@[s]@.len(),
            forall|args: &Vec<Value>| f.requires((args,)),
            results.len() == k,
            forall|j: int| 0 <= j < k ==> #[trigger] mapped_at(f, sequences@, j, results@[j]),
        decreases length - k,
    {
        let args = column_at(sequences, k);
        match f(&args) {
            Ok(v) => {
                assert(mapped_at(f, sequences@, k as int, v));
                results.push(v);
            },
            Err(e) => {
                assert(f.ensures((&args,), Err::<Value, RuntimeError>(e)));
                return Err(e);
            },
        }
        k = k + 1;
    }
    Ok(results)
}

/// The kind of sequence `MAP` and `MERGE` build for a result type: `NIL`,
/// `LIST`, `VECTOR` (also `SIMPLE-VECTOR`) or `STRING` (also
/// `BASE-STRING`, `SIMPLE-STRING`, `SIMPLE-BASE-STRING`).
pub open spec fn result_kind_of(v: Value) -> Option<Seq<char>> {
    match symbol_name_of(v) {
        None => None,
        Some(n) => {
            let u = normalize(n);
            if u == "NIL"@ {
                Some("NIL"@)
            } else if u == "LIST"@ {
                Some("LIST"@)
            } else if u == "VECTOR"@ || u == "SIMPLE-VECTOR"@ {
                Some("VECTOR"@)
            } else if u == "STRING"@ || u == "BASE-STRING"@ || u == "SIMPLE-STRING"@ || u == "SIMPLE-BASE-STRING"@ {
                Some("STRING"@)
            } else {
                None
            }
        },
    }
}

/// The result kind for a result type (see `result_kind_of`); `message`
/// reports any other type.
pub fn sequence_result_kind(result_type: &Value, message: &str, span: Span) -> (r: Result<&'static str, RuntimeError>)
    ensures
        match result_kind_of(*result_type) {
            Some(k) => r matches Ok(s) && s@ == k,
            None => r matches Err(e) && is_invalid(e, message@, span),
        },
{
    let name = match result_type.symbol_name() {
        Some(n) => n,
        None => return Err(invalid(message, span)),
    };
    let v = chars_of(name.as_str());
    let u = normalize_text(&v);
    if text_is(&u, "NIL") {
        Ok("NIL")
    } else if text_is(&u, "LIST") {
        Ok("LIST")
    } else if text_is(&u, "VECTOR") || text_is(&u, "SIMPLE-VECTOR") {
        Ok("VECTOR")
    } else if text_is(&u, "STRING") || text_is(&u, "BASE-STRING") || text_is(&u, "SIMPLE-STRING") || text_is(
        &u,
        "SIMPLE-BASE-STRING",
    ) {
        Ok("STRING")
    } else {
        Err(invalid(message, span))
    }
}

/// What `MAP-INTO` stores: the destination with its first `n` elements
/// replaced by the results, `n` the length of the shortest sequence and of
/// the destination; a string destination takes characters only.
pub open spec fn mapped_into<F: Fn(&Vec<Value>) -> Result<Value, RuntimeError>>(
    f: F,
    kind: SequenceKind,
    destination: Seq<Value>,
    sequences: Seq<Vec<Value>>,
    r: Seq<Value>,
) -> bool {
    let n = shortest_from(sequences, destination.len() as int);
    &&& r.len() == destination.len()
    &&& forall|k: int| 0 <= k < n ==> #[trigger] mapped_at(f, sequences, k, r[k])
    &&& forall|k: int| 0 <= k < n && kind == SequenceKind::String ==> #[trigger] r[k] is Character
    &&& forall|k: int| n <= k < destination.len() ==> #[trigger] r[k] == destination[k]
}

/// `MAP-INTO`: calls `f` on the elements at each position below the
/// shortest length, in order, and stores each result in the destination's
/// elements (see `mapped_into`). A non-character result for a string
/// destination is a type error; the first error ends the mapping.
pub fn map_into_values<F: Fn(&Vec<Value>) -> Result<Value, RuntimeError>>(
    kind: SequenceKind,
    destination: Vec<Value>,
    sequences: &Vec<Vec<Value>>,
    f: F,
    span: Span,
) -> (r: Result<Vec<Value>, RuntimeError>)
    requires
        forall|args: &Vec<Value>| f.requires((args,)),
    ensures
        r matches Ok(values) ==> mapped_into(f, kind, destination@, sequences@, values@),
        r matches Err(e) ==> (exists|k: int, v: Value|
            #[trigger] mapped_at(f, sequences@, k, v) && !(v is Character) && is_type_error(
                e,
                "CHARACTER"@,
                kind_name_of(v),
                span,
            )) || (exists|args: Vec<Value>| #[trigger] f.ensures((&args,), Err::<Value, RuntimeError>(e))),
{
    let length = shortest_length(sequences, destination.len());
    let ghost initial = destination@;
    let mut result = destination;
    let mut k: usize = 0;
    while k < length
        invariant
            k <= length,
            length == shortest_from(sequences@, initial.len() as int),
            length <= initial.len(),
            forall|s: int| 0 <= s < sequences.len() ==> length <= #[trigger] sequences@[s]@.len(),
            forall|args: &Vec<Value>| f.requires((args,)),
            result.len() == initial.len(),
            forall|j: int| 0 <= j < k ==> #[trigger] mapped_at(f, sequences@, j, result@[j]),
            forall|j: int| 0 <= j < k && kind == SequenceKind::String ==> #[trigger] result@[j] is Character,
            forall|j: int| k <= j < initial.len() ==> #[trigger] result@[j] == initial[j],
        decreases length - k,
    {
        let args = column_at(sequences, k);
        let value = match f(&args) {
            Ok(v) => v,
            Err(e) => {
                assert(f.ensures((&args,), Err::<Value, RuntimeError>(e)));
                return Err(e);
            },
        };
        assert(mapped_at(f, sequences@, k as int, value));
        match kind {
            SequenceKind::String => {
                if !matches!(value, Value::Character(_)) {
                    return Err(type_error("CHARACTER", &value, span));
                }
            },
            _ => {},
        }
        result.set(k, value);
        k = k + 1;
    }
    Ok(result)
}

/// How a list mapping function treats its lists: whether it passes the
/// tails instead of the elements, concatenates the results, or returns its
/// first list.
pub struct ListMapping {
    pub uses_tails: bool,
    pub concatenates: bool,
    pub returns_first: bool,
}

/// The list mapping operations.
pub open spec fn list_mapping_of(op: Seq<char>) -> Option<ListMapping> {
    if op == "MAPC"@ {
        Some(ListMapping { uses_tails: false, concatenates: false, returns_first: true })
    } else if op == "MAPCAR"@ {
        Some(ListMapping { uses_tails: false, concatenates: false, returns_first: false })
    } else if op == "MAPL"@ {
        Some(ListMapping { uses_tails: true, concatenates: false, returns_first: true })
    } else if op == "MAPLIST"@ {
        Some(ListMapping { uses_tails: true, concatenates: false, returns_first: false })
    } else if op == "MAPCAN"@ {
        Some(ListMapping { uses_tails: false, concatenates: true, returns_first: false })
    } else if op == "MAPCON"@ {
        Some(ListMapping { uses_tails: true, concatenates: true, returns_first: false })
    } else {
        None
    }
}

/// The arguments a list mapping function gets at position `k`: the
/// elements, or the tails from `k` on.
pub open spec fn list_column(lists: Seq<Vec<Value>>, k: int, tails: bool, args: Seq<Value>) -> bool {
    &&& args.len() == lists.len()
    &&& forall|s: int|
        0 <= s < lists.len() ==> if tails {
            list_items_of(#[trigger] args[s]) == Some(lists[s]@.skip(k))
        } else {
            args[s] == lists[s]@[k]
        }
}

/// `f` answered `result` for the list mapping arguments at position `k`.
pub open spec fn list_mapped_at<F: Fn(&Vec<Value>) -> Result<Value, RuntimeError>>(
    f: F,
    lists: Seq<Vec<Value>>,
    k: int,
    tails: bool,
    result: Value,
) -> bool {
    exists|args: Vec<Value>|
        list_column(lists, k, tails, args@) && #[trigger] f.ensures((&args,), Ok::<Value, RuntimeError>(result))
}

/// What a list mapping collects from the answers: nothing for the
/// functions that return their first list, the elements of each answer
/// when they concatenate, each answer otherwise.
pub open spec fn collected(mode: ListMapping, answers: Seq<Value>) -> Seq<Value>
    decreases answers.len(),
{
    if answers.len() == 0 {
        Seq::empty()
    } else {
        let rest = collected(mode, answers.drop_last());
        if mode.concatenates {
            match list_items_of(answers.last()) {
                Some(items) => rest + items,
                None => rest,
            }
        } else if mode.returns_first {
            rest
        } else {
            rest.push(answers.last())
        }
    }
}

/// The tail arguments at position `k`.
fn tail_column(lists: &Vec<Vec<Value>>, k: usize) -> (r: Vec<Value>)
    requires
        forall|s: int| 0 <= s < lists.len() ==> k <= #[trigger] lists@[s]@.len(),
    ensures
        list_column(lists@, k as int, true, r@),
{
    let mut args: Vec<Value> = Vec::new();
    let mut s: usize = 0;
    while s < lists.len()
        invariant
            s <= lists.len(),
            forall|t: int| 0 <= t < lists.len() ==> k <= #[trigger] lists@[t]@.len(),
            args.len() == s,
            forall|t: int| 0 <= t < s ==> list_items_of(#[trigger] args@[t]) == Some(lists@[t]@.skip(k as int)),
        decreases lists.len() - s,
    {
        let mut tail: Vec<Value> = Vec::new();
        let items = &lists[s];
        let mut i: usize = k;
        while i < items.len()
            invariant
                k <= i <= items.len(),
                tail@ == items@.subrange(k as int, i as int),
            decreases items.len() - i,
        {
            tail.push(items[i].clone());
            proof {
                assert(items@.subrange(k as int, i + 1) =~= items@.subrange(k as int, i as int).push(items@[i as int]));
            }
            i = i + 1;
        }
        assert(tail@ =~= items@.skip(k as int));
        args.push(Value::list(tail));
        s = s + 1;
    }
    args
}

/// Applies `f` to the elements (or tails) at each position below the
/// shortest length, in order, and collects the results as `mode` says (see
/// `collected`); a concatenating function must answer lists, else
/// `message` is reported. The first error ends the mapping.
pub fn list_map_values<F: Fn(&Vec<Value>) -> Result<Value, RuntimeError>>(
    lists: &Vec<Vec<Value>>,
    mode: &ListMapping,
    f: F,
    message: &str,
    span: Span,
) -> (r: Result<Vec<Value>, RuntimeError>)
    requires
        forall|args: &Vec<Value>| f.requires((args,)),
    ensures
        r matches Ok(results) ==> exists|answers: Seq<Value>|
            answers.len() == shortest_from(lists@, if lists.len() == 0 {
                0
            } else {
                usize::MAX as int
            }) && (forall|k: int|
                0 <= k < answers.len() ==> #[trigger] list_mapped_at(f, lists@, k, mode.uses_tails, answers[k])
                    && (mode.concatenates ==> list_items_of(answers[k]) is Some)) && results@ == collected(
                *mode,
                answers,
            ),
        r matches Err(e) ==> (exists|k: int, v: Value|
            #[trigger] list_mapped_at(f, lists@, k, mode.uses_tails, v) && list_items_of(v) is None && is_invalid(
                e,
                message@,
                span,
            )) || (exists|args: Vec<Value>| #[trigger] f.ensures((&args,), Err::<Value, RuntimeError>(e))),
{
    let limit: usize = if lists.len() == 0 {
        0
    } else {
        usize::MAX
    };
    let length = shortest_length(lists, limit);
    let mut results: Vec<Value> = Vec::new();
    let ghost mut answers: Seq<Value> = Seq::empty();
    let mut k: usize = 0;
    while k < length
        invariant
            k <= length,
            length == shortest_from(lists@, limit as int),
            forall|s: int| 0 <= s < lists.len() ==> length <= #[trigger] lists@[s]@.len(),
            forall|args: &Vec<Value>| f.requires((args,)),
            answers.len() == k,
            forall|j: int|
                0 <= j < k ==> #[trigger] list_mapped_at(f, lists@, j, mode.uses_tails, answers[j])
                    && (mode.concatenates ==> list_items_of(answers[j]) is Some),
            results@ == collected(*mode, answers),
        decreases length - k,
    {
        let args = if mode.uses_tails {
            tail_column(lists, k)
        } else {
            let a = column_at(lists, k);
            assert(list_column(lists@, k as int, false, a@)) by {
                assert forall|s: int| 0 <= s < lists.len() implies a@[s] == lists@[s]@[k as int] by {
                    assert(column(lists@, k as int, a@));
                }
            }
            a
        };
        let value = match f(&args) {
            Ok(v) => v,
            Err(e) => {
                assert(f.ensures((&args,), Err::<Value, RuntimeError>(e)));
                return Err(e);
            },
        };
        assert(list_mapped_at(f, lists@, k as int, mode.uses_tails, value));
        let ghost before = answers;
        if mode.concatenates {
            match value.list_items() {
                Some(items) => {
                    let mut i: usize = 0;
                    let ghost start = results@;
                    while i < items.len()
                        invariant
                            i <= items.len(),
                            results@ == start + items@.take(i as int),
                        decreases items.len() - i,
                    {
                        results.push(items[i].clone());
                        proof {
                            assert(items@.take(i + 1) =~= items@.take(i as int).push(items@[i as int]));
                        }
                        i = i + 1;
                    }
                    assert(items@.take(items.len() as int) =~= items@);
                    assert(list_items_of(value) is Some);
                },
                None => {
                    return Err(invalid(message, span));
                },
            }
        } else if !mode.returns_first {
            results.push(value.clone());
        }
        proof {
            answers = answers.push(value);
            assert(answers.drop_last() =~= before);
            assert forall|j: int|
                0 <= j < k + 1 implies #[trigger] list_mapped_at(f, lists@, j, mode.uses_tails, answers[j])
                    && (mode.concatenates ==> list_items_of(answers[j]) is Some) by {
                if j < k {
                    assert(answers[j] == before[j]);
                    assert(list_mapped_at(f, lists@, j, mode.uses_tails, before[j]));
                } else {
                    assert(answers[j] == value);
                }
            }
        }
        k = k + 1;
    }
    Ok(results)
}

impl Runtime {
    /// Reads a list mapping operation's name (see `list_mapping_of`).
    pub fn list_mapping_operation(operation: &str, span: Span) -> (r: Result<ListMapping, RuntimeError>)
        ensures
            match list_mapping_of(operation@) {
                Some(m) => r == Ok::<ListMapping, RuntimeError>(m),
                None => r matches Err(e) && is_invalid(e, "unknown list mapping operation"@, span),
            },
    {
        let op = chars_of(operation);
        if text_is(&op, "MAPC") {
            Ok(ListMapping { uses_tails: false, concatenates: false, returns_first: true })
        } else if text_is(&op, "MAPCAR") {
            Ok(ListMapping { uses_tails: false, concatenates: false, returns_first: false })
        } else if text_is(&op, "MAPL") {
            Ok(ListMapping { uses_tails: true, concatenates: false, returns_first: true })
        } else if text_is(&op, "MAPLIST") {
            Ok(ListMapping { uses_tails: true, concatenates: false, returns_first: false })
        } else if text_is(&op, "MAPCAN") {
            Ok(ListMapping { uses_tails: false, concatenates: true, returns_first: false })
        } else if text_is(&op, "MAPCON") {
            Ok(ListMapping { uses_tails: true, concatenates: true, returns_first: false })
        } else {
            Err(invalid("unknown list mapping operation", span))
        }
    }

    /// The elements of each argument of a list mapping function; every
    /// argument must be a list, else `OPERATION arguments must be lists`,
    /// the operation's name in lower case.
    pub fn mapping_lists(operation: &str, sequences: &[Value], span: Span) -> (r: Result<Vec<Vec<Value>>, RuntimeError>)
        ensures
            r matches Ok(lists) ==> lists.len() == sequences.len() && forall|s: int|
                0 <= s < sequences.len() ==> list_items_of(#[trigger] sequences@[s]) == Some(lists@[s]@),
            r matches Err(e) ==> is_invalid(e, downcase_seq(operation@) + " arguments must be lists"@, span)
                && exists|s: int| 0 <= s < sequences.len() && list_items_of(#[trigger] sequences@[s]) is None,
            (forall|s: int| 0 <= s < sequences.len() ==> list_items_of(#[trigger] sequences@[s]) is Some) ==> r is Ok,
    {
        let mut lists: Vec<Vec<Value>> = Vec::new();
        let mut s: usize = 0;
        while s < sequences.len()
            invariant
                s <= sequences.len(),
                lists.len() == s,
                forall|t: int| 0 <= t < s ==> list_items_of(#[trigger] sequences@[t]) == Some(lists@[t]@),
            decreases sequences.len() - s,
        {
            match sequences[s].list_items() {
                Some(items) => {
                    lists.push(items);
                },
                None => {
                    let name = downcase_text(&chars_of(operation));
                    let suffix = chars_of(" arguments must be lists");
                    let message = crate::text::join_text(&name, &suffix);
                    return Err(RuntimeError::InvalidForm {
                        message: crate::text::string_from(&message),
                        span: Some(span),
                    });
                },
            }
            s = s + 1;
        }
        Ok(lists)
    }
}

/// A mapping function answered at position `k` on its arguments in the
/// order of the sequences: argument `s` is element `k` of sequence `s`
/// (what `map_columns` and `map_into_values` record for each result).
pub proof fn lemma_mapping_argument_order<F: Fn(&Vec<Value>) -> Result<Value, RuntimeError>>(
    f: F,
    sequences: Seq<Vec<Value>>,
    k: int,
    result: Value,
)
    requires
        mapped_at(f, sequences, k, result),
    ensures
        exists|args: Vec<Value>|
            #[trigger] f.ensures((&args,), Ok::<Value, RuntimeError>(result)) && args@.len() == sequences.len()
                && forall|s: int| 0 <= s < sequences.len() ==> args@[s] == #[trigger] sequences[s]@[k],
{
    let args = choose|args: Vec<Value>|
        column(sequences, k, args@) && #[trigger] f.ensures((&args,), Ok::<Value, RuntimeError>(result));
    assert(forall|s: int| 0 <= s < sequences.len() ==> args@[s] == #[trigger] sequences[s]@[k]);
}

/// A list mapping function answered at position `k` on its arguments in
/// the order of the lists: argument `s` is element `k` of list `s`, or,
/// for the functions over tails, the tail of list `s` from `k` on (what
/// `list_map_values` records for each answer).
pub proof fn lemma_list_mapping_argument_order<F: Fn(&Vec<Value>) -> Result<Value, RuntimeError>>(
    f: F,
    lists: Seq<Vec<Value>>,
    k: int,
    tails: bool,
    result: Value,
)
    requires
        list_mapped_at(f, lists, k, tails, result),
    ensures
        exists|args: Vec<Value>|
            #[trigger] f.ensures((&args,), Ok::<Value, RuntimeError>(result)) && args@.len() == lists.len() && forall|
                s: int,
            |
                0 <= s < lists.len() ==> if tails {
                    list_items_of(args@[s]) == Some(#[trigger] lists[s]@.skip(k))
                } else {
                    args@[s] == lists[s]@[k]
                },
{
    let args = choose|args: Vec<Value>|
        list_column(lists, k, tails, args@) && #[trigger] f.ensures((&args,), Ok::<Value, RuntimeError>(result));
    assert forall|s: int| 0 <= s < lists.len() implies if tails {
        list_items_of(args@[s]) == Some(#[trigger] lists[s]@.skip(k))
    } else {
        args@[s] == lists[s]@[k]
    } by {
        if tails {
            assert(list_items_of(args@[s]) == Some(lists[s]@.skip(k)));
        }
    }
}

} // verus!
