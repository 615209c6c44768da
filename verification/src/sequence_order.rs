//! Ordering sequences: `MERGE` of two sequences and the insertion `SORT`,
//! driven by the caller's key function and predicate, passed in as
//! closures. The contracts state the result in terms of what those calls
//! answered; the laws state that no element is lost or duplicated.
use vstd::prelude::*;
use crate::error::{invalid, is_invalid, RuntimeError};
use crate::runtime::Runtime;
use crate::syntax::Span;
use crate::text::{chars_of, text_is};
use crate::value::Value;

verus! {

broadcast use vstd::seq_lib::group_to_multiset_ensures;

/// `keys` holds what `key_fn` answered for each element of `items`.
pub open spec fn keyed_by<K: Fn(&Value) -> Result<Value, RuntimeError>>(key_fn: K, items: Seq<Value>, keys: Seq<Value>) -> bool {
    &&& keys.len() == items.len()
    &&& forall|i: int| 0 <= i < items.len() ==> #[trigger] key_fn.ensures((&items[i],), Ok::<Value, RuntimeError>(keys[i]))
}

/// The key of each element, computed in order. The first error a call
/// returns ends the computation and is returned.
pub fn keys_of<K: Fn(&Value) -> Result<Value, RuntimeError>>(items: &Vec<Value>, key_fn: &K) -> (r: Result<
    Vec<Value>,
    RuntimeError,
>)
    requires
        forall|v: &Value| key_fn.requires((v,)),
    ensures
        r matches Ok(keys) ==> keyed_by(*key_fn, items@, keys@),
        r matches Err(e) ==> exists|i: int|
            0 <= i < items.len() && #[trigger] key_fn.ensures((&items@[i],), Err::<Value, RuntimeError>(e)),
{
    let mut keys: Vec<Value> = Vec::new();
    let mut i: usize = 0;
    while i < items.len()
        invariant
            i <= items.len(),
            keys.len() == i,
            forall|v: &Value| key_fn.requires((v,)),
            forall|j: int| 0 <= j < i ==> #[trigger] key_fn.ensures((&items@[j],), Ok::<Value, RuntimeError>(keys@[j])),
        decreases items.len() - i,
    {
        match key_fn(&items[i]) {
            Ok(k) => {
                keys.push(k);
            },
            Err(e) => {
                assert(key_fn.ensures((&items@[i as int],), Err::<Value, RuntimeError>(e)));
                return Err(e);
            },
        }
        i = i + 1;
    }
    Ok(keys)
}

/// `m` is what merging `items1[i..]` with `items2[j..]` gives when the
/// predicate is asked, at each step, whether the next key of the second
/// sequence precedes the next key of the first: the second's element
/// comes first when it answered true, the first's when false; once one
/// sequence is used up the rest of the other follows.
pub open spec fn merged_by<P: Fn(&Value, &Value) -> Result<bool, RuntimeError>>(
    precedes: P,
    items1: Seq<Value>,
    keys1: Seq<Value>,
    items2: Seq<Value>,
    keys2: Seq<Value>,
    i: int,
    j: int,
    m: Seq<Value>,
) -> bool
    decreases (items1.len() - i) + (items2.len() - j),
{
    if i < 0 || j < 0 || i > items1.len() || j > items2.len() {
        false
    } else if i == items1.len() {
        m == items2.skip(j)
    } else if j == items2.len() {
        m == items1.skip(i)
    } else if m.len() == 0 {
        false
    } else {
        ||| (precedes.ensures((&keys2[j], &keys1[i]), Ok::<bool, RuntimeError>(true)) && m[0] == items2[j]
            && merged_by(precedes, items1, keys1, items2, keys2, i, j + 1, m.drop_first()))
        ||| (precedes.ensures((&keys2[j], &keys1[i]), Ok::<bool, RuntimeError>(false)) && m[0] == items1[i]
            && merged_by(precedes, items1, keys1, items2, keys2, i + 1, j, m.drop_first()))
    }
}

/// Appends `src[from..]` to `out`.
fn append_from(out: &mut Vec<Value>, src: &Vec<Value>, from: usize)
    requires
        from <= src.len(),
    ensures
        final(out)@ == old(out)@ + src@.skip(from as int),
{
    let ghost start = out@;
    let mut i: usize = from;
    while i < src.len()
        invariant
            from <= i <= src.len(),
            out@ == start + src@.subrange(from as int, i as int),
        decreases src.len() - i,
    {
        out.push(src[i].clone());
        proof {
            assert(src@.subrange(from as int, i + 1) =~= src@.subrange(from as int, i as int).push(src@[i as int]));
        }
        i = i + 1;
    }
    proof {
        assert(src@.subrange(from as int, src.len() as int) =~= src@.skip(from as int));
    }
}

/// Merges two sequences by their keys (see `merged_by`). The first error
/// the predicate returns ends the merge and is returned.
pub fn merge_keyed<P: Fn(&Value, &Value) -> Result<bool, RuntimeError>>(
    items1: &Vec<Value>,
    keys1: &Vec<Value>,
    items2: &Vec<Value>,
    keys2: &Vec<Value>,
    precedes: P,
) -> (r: Result<Vec<Value>, RuntimeError>)
    requires
        keys1.len() == items1.len(),
        keys2.len() == items2.len(),
        forall|a: &Value, b: &Value| precedes.requires((a, b)),
    ensures
        r matches Ok(m) ==> merged_by(precedes, items1@, keys1@, items2@, keys2@, 0, 0, m@),
        r matches Err(e) ==> exists|i: int, j: int|
            #[trigger] precedes.ensures((&keys2@[j], &keys1@[i]), Err::<bool, RuntimeError>(e)),
{
    let mut merged: Vec<Value> = Vec::new();
    let mut i: usize = 0;
    let mut j: usize = 0;
    while i < items1.len() && j < items2.len()
        invariant
            i <= items1.len(),
            j <= items2.len(),
            keys1.len() == items1.len(),
            keys2.len() == items2.len(),
            forall|a: &Value, b: &Value| precedes.requires((a, b)),
            forall|t: Seq<Value>|
                #[trigger] merged_by(precedes, items1@, keys1@, items2@, keys2@, i as int, j as int, t) ==> merged_by(
                    precedes,
                    items1@,
                    keys1@,
                    items2@,
                    keys2@,
                    0,
                    0,
                    merged@ + t,
                ),
        decreases (items1.len() - i) + (items2.len() - j),
    {
        let ghost before = merged@;
        match precedes(&keys2[j], &keys1[i]) {
            Ok(second_first) => {
                if second_first {
                    merged.push(items2[j].clone());
                    proof {
                        assert forall|t: Seq<Value>|
                            #[trigger] merged_by(
                                precedes,
                                items1@,
                                keys1@,
                                items2@,
                                keys2@,
                                i as int,
                                j + 1,
                                t,
                            ) implies merged_by(
                            precedes,
                            items1@,
                            keys1@,
                            items2@,
                            keys2@,
                            0,
                            0,
                            merged@ + t,
                        ) by {
                            let m = seq![items2@[j as int]] + t;
                            assert(m.drop_first() =~= t);
                            assert(merged_by(precedes, items1@, keys1@, items2@, keys2@, i as int, j as int, m));
                            assert(before + m =~= merged@ + t);
                        }
                    }
                    j = j + 1;
                } else {
                    merged.push(items1[i].clone());
                    proof {
                        assert forall|t: Seq<Value>|
                            #[trigger] merged_by(
                                precedes,
                                items1@,
                                keys1@,
                                items2@,
                                keys2@,
                                i + 1,
                                j as int,
                                t,
                            ) implies merged_by(
                            precedes,
                            items1@,
                            keys1@,
                            items2@,
                            keys2@,
                            0,
                            0,
                            merged@ + t,
                        ) by {
                            let m = seq![items1@[i as int]] + t;
                            assert(m.drop_first() =~= t);
                            assert(merged_by(precedes, items1@, keys1@, items2@, keys2@, i as int, j as int, m));
                            assert(before + m =~= merged@ + t);
                        }
                    }
                    i = i + 1;
                }
            },
            Err(e) => {
                assert(precedes.ensures((&keys2@[j as int], &keys1@[i as int]), Err::<bool, RuntimeError>(e)));
                return Err(e);
            },
        }
    }
    let ghost before = merged@;
    if i < items1.len() {
        append_from(&mut merged, items1, i);
        assert(merged_by(precedes, items1@, keys1@, items2@, keys2@, i as int, j as int, items1@.skip(i as int)));
    } else {
        append_from(&mut merged, items2, j);
        assert(merged_by(precedes, items1@, keys1@, items2@, keys2@, i as int, j as int, items2@.skip(j as int)));
    }
    Ok(merged)
}

/// A merge keeps every element of both sequences and adds none.
pub proof fn lemma_merge_permutation<P: Fn(&Value, &Value) -> Result<bool, RuntimeError>>(
    precedes: P,
    items1: Seq<Value>,
    keys1: Seq<Value>,
    items2: Seq<Value>,
    keys2: Seq<Value>,
    i: int,
    j: int,
    m: Seq<Value>,
)
    requires
        merged_by(precedes, items1, keys1, items2, keys2, i, j, m),
    ensures
        m.to_multiset() == items1.skip(i).to_multiset().add(items2.skip(j).to_multiset()),
    decreases (items1.len() - i) + (items2.len() - j),
{
    broadcast use vstd::seq_lib::lemma_multiset_commutative;
    broadcast use vstd::multiset::group_multiset_axioms;

    if i == items1.len() {
        assert(items1.skip(i) =~= Seq::<Value>::empty());
        assert(items1.skip(i).to_multiset() =~= vstd::multiset::Multiset::empty());
        assert(m.to_multiset() =~= items1.skip(i).to_multiset().add(items2.skip(j).to_multiset()));
    } else if j == items2.len() {
        assert(items2.skip(j) =~= Seq::<Value>::empty());
        assert(items2.skip(j).to_multiset() =~= vstd::multiset::Multiset::empty());
        assert(m.to_multiset() =~= items1.skip(i).to_multiset().add(items2.skip(j).to_multiset()));
    } else {
        assert(m =~= seq![m[0]] + m.drop_first());
        if precedes.ensures((&keys2[j], &keys1[i]), Ok::<bool, RuntimeError>(true)) && m[0] == items2[j]
            && merged_by(precedes, items1, keys1, items2, keys2, i, j + 1, m.drop_first()) {
            lemma_merge_permutation(precedes, items1, keys1, items2, keys2, i, j + 1, m.drop_first());
            assert(items2.skip(j) =~= seq![items2[j]] + items2.skip(j + 1));
            assert(m.to_multiset() =~= items1.skip(i).to_multiset().add(items2.skip(j).to_multiset()));
        } else {
            lemma_merge_permutation(precedes, items1, keys1, items2, keys2, i + 1, j, m.drop_first());
            assert(items1.skip(i) =~= seq![items1[i]] + items1.skip(i + 1));
            assert(m.to_multiset() =~= items1.skip(i).to_multiset().add(items2.skip(j).to_multiset()));
        }
    }
}

/// Inserting `key` at `pos` into the keyed elements `sorted` is what the
/// predicate answered: `key` does not precede the keys before `pos`, and
/// precedes the key at `pos` when there is one.
pub open spec fn inserted_at<P: Fn(&Value, &Value) -> Result<bool, RuntimeError>>(
    precedes: P,
    sorted: Seq<(Value, Value)>,
    key: Value,
    pos: int,
) -> bool {
    &&& 0 <= pos <= sorted.len()
    &&& forall|idx: int|
        0 <= idx < pos ==> #[trigger] precedes.ensures((&key, &sorted[idx].1), Ok::<bool, RuntimeError>(false))
    &&& pos < sorted.len() ==> precedes.ensures((&key, &sorted[pos].1), Ok::<bool, RuntimeError>(true))
}

/// `trace` records sorting `items` by insertion: it starts empty, and
/// each next state inserts the next element, with the key `key_fn`
/// answered, before the first element whose key it precedes.
pub open spec fn sort_trace<K: Fn(&Value) -> Result<Value, RuntimeError>, P: Fn(&Value, &Value) -> Result<
    bool,
    RuntimeError,
>>(key_fn: K, precedes: P, items: Seq<Value>, trace: Seq<Seq<(Value, Value)>>) -> bool {
    &&& trace.len() == items.len() + 1
    &&& trace[0].len() == 0
    &&& forall|k: int| 0 <= k < items.len() ==> #[trigger] step_taken(key_fn, precedes, items, trace, k)
}

/// State `k + 1` of `trace` inserts element `k` into state `k`.
pub open spec fn step_taken<K: Fn(&Value) -> Result<Value, RuntimeError>, P: Fn(&Value, &Value) -> Result<
    bool,
    RuntimeError,
>>(key_fn: K, precedes: P, items: Seq<Value>, trace: Seq<Seq<(Value, Value)>>, k: int) -> bool {
    exists|key: Value, pos: int| #[trigger] insertion_step(key_fn, precedes, items, k, trace[k], key, pos, trace[k + 1])
}

/// `s` is `prev` with element `k` of `items` inserted at `pos`, its key
/// being what `key_fn` answered and `pos` what the predicate answered.
pub open spec fn insertion_step<K: Fn(&Value) -> Result<Value, RuntimeError>, P: Fn(&Value, &Value) -> Result<
    bool,
    RuntimeError,
>>(
    key_fn: K,
    precedes: P,
    items: Seq<Value>,
    k: int,
    prev: Seq<(Value, Value)>,
    key: Value,
    pos: int,
    s: Seq<(Value, Value)>,
) -> bool {
    &&& key_fn.ensures((&items[k],), Ok::<Value, RuntimeError>(key))
    &&& inserted_at(precedes, prev, key, pos)
    &&& s == prev.insert(pos, (items[k], key))
}

/// The elements of keyed elements.
pub open spec fn firsts(s: Seq<(Value, Value)>) -> Seq<Value> {
    Seq::new(s.len(), |k: int| s[k].0)
}

/// The position before the first element whose key `key` precedes.
fn insertion_position<P: Fn(&Value, &Value) -> Result<bool, RuntimeError>>(
    sorted: &Vec<(Value, Value)>,
    key: &Value,
    precedes: &P,
) -> (r: Result<usize, RuntimeError>)
    requires
        forall|a: &Value, b: &Value| precedes.requires((a, b)),
    ensures
        r matches Ok(pos) ==> inserted_at(*precedes, sorted@, *key, pos as int),
        r matches Err(e) ==> exists|a: Value, b: Value|
            #[trigger] precedes.ensures((&a, &b), Err::<bool, RuntimeError>(e)),
{
    let mut idx: usize = 0;
    while idx < sorted.len()
        invariant
            idx <= sorted.len(),
            forall|a: &Value, b: &Value| precedes.requires((a, b)),
            forall|k: int|
                0 <= k < idx ==> #[trigger] precedes.ensures((key, &sorted@[k].1), Ok::<bool, RuntimeError>(false)),
        decreases sorted.len() - idx,
    {
        match precedes(key, &sorted[idx].1) {
            Ok(true) => {
                return Ok(idx);
            },
            Ok(false) => {},
            Err(e) => {
                assert(precedes.ensures((key, &sorted@[idx as int].1), Err::<bool, RuntimeError>(e)));
                return Err(e);
            },
        }
        idx = idx + 1;
    }
    Ok(sorted.len())
}

/// Sorts by inserting each element, with its key, before the first
/// element whose key it precedes (see `sort_trace`); equal elements keep
/// their order. The first error a call returns ends the sort and is
/// returned.
pub fn insertion_sort<K: Fn(&Value) -> Result<Value, RuntimeError>, P: Fn(&Value, &Value) -> Result<
    bool,
    RuntimeError,
>>(items: &Vec<Value>, key_fn: K, precedes: P) -> (r: Result<Vec<Value>, RuntimeError>)
    requires
        forall|v: &Value| key_fn.requires((v,)),
        forall|a: &Value, b: &Value| precedes.requires((a, b)),
    ensures
        r matches Ok(sorted) ==> exists|trace: Seq<Seq<(Value, Value)>>|
            #[trigger] sort_trace(key_fn, precedes, items@, trace) && sorted@ == firsts(trace.last()),
        r matches Err(e) ==> (exists|i: int|
            0 <= i < items.len() && #[trigger] key_fn.ensures((&items@[i],), Err::<Value, RuntimeError>(e)))
            || (exists|a: Value, b: Value| #[trigger] precedes.ensures((&a, &b), Err::<bool, RuntimeError>(e))),
{
    let mut sorted: Vec<(Value, Value)> = Vec::new();
    let ghost mut trace: Seq<Seq<(Value, Value)>> = seq![sorted@];
    let mut i: usize = 0;
    while i < items.len()
        invariant
            i <= items.len(),
            forall|v: &Value| key_fn.requires((v,)),
            forall|a: &Value, b: &Value| precedes.requires((a, b)),
            trace.len() == i + 1,
            trace[0].len() == 0,
            trace[i as int] == sorted@,
            forall|k: int| 0 <= k < i ==> #[trigger] step_taken(key_fn, precedes, items@, trace, k),
        decreases items.len() - i,
    {
        let key = match key_fn(&items[i]) {
            Ok(k) => k,
            Err(e) => {
                assert(key_fn.ensures((&items@[i as int],), Err::<Value, RuntimeError>(e)));
                return Err(e);
            },
        };
        let pos = match insertion_position(&sorted, &key, &precedes) {
            Ok(p) => p,
            Err(e) => return Err(e),
        };
        let ghost prev = sorted@;
        let ghost key_value = key;
        sorted.insert(pos, (items[i].clone(), key));
        proof {
            let old_trace = trace;
            trace = trace.push(sorted@);
            assert(insertion_step(key_fn, precedes, items@, i as int, trace[i as int], key_value, pos as int, trace[i + 1]));
            assert forall|k: int| 0 <= k < i + 1 implies #[trigger] step_taken(key_fn, precedes, items@, trace, k) by {
                if k < i {
                    assert(step_taken(key_fn, precedes, items@, old_trace, k));
                    assert(trace[k] == old_trace[k] && trace[k + 1] == old_trace[k + 1]);
                }
            }
        }
        i = i + 1;
    }
    let mut out: Vec<Value> = Vec::new();
    let mut k: usize = 0;
    while k < sorted.len()
        invariant
            k <= sorted.len(),
            out.len() == k,
            forall|x: int| 0 <= x < k ==> out@[x] == sorted@[x].0,
        decreases sorted.len() - k,
    {
        out.push(sorted[k].0.clone());
        k = k + 1;
    }
    assert(out@ =~= firsts(sorted@));
    assert(sort_trace(key_fn, precedes, items@, trace));
    Ok(out)
}

/// Each state of a sort trace holds the elements inserted so far.
proof fn lemma_trace_permutation<K: Fn(&Value) -> Result<Value, RuntimeError>, P: Fn(&Value, &Value) -> Result<
    bool,
    RuntimeError,
>>(key_fn: K, precedes: P, items: Seq<Value>, trace: Seq<Seq<(Value, Value)>>, n: int)
    requires
        sort_trace(key_fn, precedes, items, trace),
        0 <= n <= items.len(),
    ensures
        firsts(trace[n]).to_multiset() == items.take(n).to_multiset(),
    decreases n,
{
    broadcast use vstd::seq_lib::to_multiset_build;
    broadcast use vstd::seq_lib::to_multiset_insert;

    if n == 0 {
        assert(firsts(trace[0]) =~= Seq::<Value>::empty());
        assert(items.take(0) =~= Seq::<Value>::empty());
    } else {
        lemma_trace_permutation(key_fn, precedes, items, trace, n - 1);
        assert(step_taken(key_fn, precedes, items, trace, n - 1));
        let (key, pos) = choose|key: Value, pos: int|
            #[trigger] insertion_step(key_fn, precedes, items, n - 1, trace[n - 1], key, pos, trace[n]);
        assert(insertion_step(key_fn, precedes, items, n - 1, trace[n - 1], key, pos, trace[n]));
        assert(firsts(trace[n]) =~= firsts(trace[n - 1]).insert(pos, items[n - 1]));
        assert(items.take(n) =~= items.take(n - 1).push(items[n - 1]));
    }
}

/// Sorting keeps every element and adds none.
pub proof fn lemma_sort_permutation<K: Fn(&Value) -> Result<Value, RuntimeError>, P: Fn(&Value, &Value) -> Result<
    bool,
    RuntimeError,
>>(key_fn: K, precedes: P, items: Seq<Value>, trace: Seq<Seq<(Value, Value)>>)
    requires
        sort_trace(key_fn, precedes, items, trace),
    ensures
        firsts(trace.last()).to_multiset() == items.to_multiset(),
{
    lemma_trace_permutation(key_fn, precedes, items, trace, items.len() as int);
    assert(items.take(items.len() as int) =~= items);
}

impl Runtime {
    /// Checks a sort operation's name: `SORT` or `STABLE-SORT`.
    pub fn sequence_sort_operation(operation: &str, span: Span) -> (r: Result<(), RuntimeError>)
        ensures
            (operation@ == "SORT"@ || operation@ == "STABLE-SORT"@) ==> r is Ok,
            !(operation@ == "SORT"@ || operation@ == "STABLE-SORT"@) ==> (r matches Err(e) && is_invalid(
                e,
                "unknown sequence sort operation"@,
                span,
            )),
    {
        let op = chars_of(operation);
        if text_is(&op, "SORT") || text_is(&op, "STABLE-SORT") {
            Ok(())
        } else {
            Err(invalid("unknown sequence sort operation", span))
        }
    }
}

/// The keys of keyed elements are in order for `lt`: no key is less than
/// one before it.
pub open spec fn keys_ordered(lt: spec_fn(Value, Value) -> bool, s: Seq<(Value, Value)>) -> bool {
    forall|i: int, j: int| 0 <= i < j < s.len() ==> !lt(#[trigger] s[j].1, #[trigger] s[i].1)
}

/// The predicate answers as `lt` whenever it answers.
pub open spec fn answers_as<P: Fn(&Value, &Value) -> Result<bool, RuntimeError>>(
    precedes: P,
    lt: spec_fn(Value, Value) -> bool,
) -> bool {
    forall|a: Value, b: Value, x: bool| #[trigger] precedes.ensures((&a, &b), Ok::<bool, RuntimeError>(x)) ==> x == lt(a, b)
}

/// `lt` is a strict order: irreflexive and transitive.
pub open spec fn strict_order(lt: spec_fn(Value, Value) -> bool) -> bool {
    &&& forall|a: Value| !#[trigger] lt(a, a)
    &&& forall|a: Value, b: Value, c: Value| #[trigger] lt(a, b) && #[trigger] lt(b, c) ==> lt(a, c)
}

proof fn lemma_insert_keeps_order<P: Fn(&Value, &Value) -> Result<bool, RuntimeError>>(
    precedes: P,
    lt: spec_fn(Value, Value) -> bool,
    prev: Seq<(Value, Value)>,
    key: Value,
    pos: int,
    item: Value,
)
    requires
        keys_ordered(lt, prev),
        inserted_at(precedes, prev, key, pos),
        answers_as(precedes, lt),
        strict_order(lt),
    ensures
        keys_ordered(lt, prev.insert(pos, (item, key))),
{
    let s = prev.insert(pos, (item, key));
    assert forall|i: int, j: int| 0 <= i < j < s.len() implies !lt(#[trigger] s[j].1, #[trigger] s[i].1) by {
        if j < pos {
            assert(s[i] == prev[i] && s[j] == prev[j]);
        } else if j == pos {
            assert(precedes.ensures((&key, &prev[i].1), Ok::<bool, RuntimeError>(false)));
        } else if i < pos {
            assert(s[i] == prev[i] && s[j] == prev[j - 1]);
        } else if i == pos {
            assert(s[j] == prev[j - 1]);
            assert(precedes.ensures((&key, &prev[pos].1), Ok::<bool, RuntimeError>(true)));
            assert(lt(key, prev[pos].1));
            if lt(prev[j - 1].1, key) {
                assert(lt(prev[j - 1].1, prev[pos].1));
                if j - 1 > pos {
                    assert(!lt(prev[j - 1].1, prev[pos].1));
                }
            }
        } else {
            assert(s[i] == prev[i - 1] && s[j] == prev[j - 1]);
        }
    }
}

proof fn lemma_trace_ordered<K: Fn(&Value) -> Result<Value, RuntimeError>, P: Fn(&Value, &Value) -> Result<
    bool,
    RuntimeError,
>>(
    key_fn: K,
    precedes: P,
    lt: spec_fn(Value, Value) -> bool,
    items: Seq<Value>,
    trace: Seq<Seq<(Value, Value)>>,
    k: int,
)
    requires
        sort_trace(key_fn, precedes, items, trace),
        answers_as(precedes, lt),
        strict_order(lt),
        0 <= k <= items.len(),
    ensures
        keys_ordered(lt, trace[k]),
    decreases k,
{
    if k > 0 {
        lemma_trace_ordered(key_fn, precedes, lt, items, trace, k - 1);
        assert(step_taken(key_fn, precedes, items, trace, k - 1));
        let (key, pos) = choose|key: Value, pos: int|
            #[trigger] insertion_step(key_fn, precedes, items, k - 1, trace[k - 1], key, pos, trace[k]);
        let prev = trace[k - 1];
        lemma_insert_keeps_order(precedes, lt, prev, key, pos, items[k - 1]);
    }
}

/// Sorting by insertion with a predicate that answers as a strict order
/// `lt` puts the keys in order: no key is less than one before it (that
/// the elements are those sorted is `lemma_sort_permutation`).
pub proof fn lemma_insertion_sort_orders<K: Fn(&Value) -> Result<Value, RuntimeError>, P: Fn(&Value, &Value) -> Result<
    bool,
    RuntimeError,
>>(
    key_fn: K,
    precedes: P,
    lt: spec_fn(Value, Value) -> bool,
    items: Seq<Value>,
    trace: Seq<Seq<(Value, Value)>>,
)
    requires
        sort_trace(key_fn, precedes, items, trace),
        answers_as(precedes, lt),
        strict_order(lt),
    ensures
        keys_ordered(lt, trace.last()),
{
    lemma_trace_ordered(key_fn, precedes, lt, items, trace, items.len() as int);
}

/// Two keys are equivalent for `lt`: neither is less than the other.
pub open spec fn equivalent(lt: spec_fn(Value, Value) -> bool, a: Value, b: Value) -> bool {
    !lt(a, b) && !lt(b, a)
}

/// The elements whose key (by `kf`) is equivalent to `k0`.
pub open spec fn key_class(lt: spec_fn(Value, Value) -> bool, kf: spec_fn(Value) -> Value, k0: Value) -> spec_fn(
    Value,
) -> bool {
    |x: Value| equivalent(lt, kf(x), k0)
}

/// `lt` is a strict weak order: a strict order under which what is not
/// less stays not less along a chain.
pub open spec fn strict_weak(lt: spec_fn(Value, Value) -> bool) -> bool {
    &&& strict_order(lt)
    &&& forall|a: Value, b: Value, c: Value| !#[trigger] lt(a, b) && !#[trigger] lt(b, c) ==> !lt(a, c)
}

/// The key function answers as `kf` whenever it answers.
pub open spec fn keys_answer_as<K: Fn(&Value) -> Result<Value, RuntimeError>>(key_fn: K, kf: spec_fn(Value) -> Value) -> bool {
    forall|v: Value, k: Value| #[trigger] key_fn.ensures((&v,), Ok::<Value, RuntimeError>(k)) ==> k == kf(v)
}

proof fn lemma_filter_none(s: Seq<Value>, pred: spec_fn(Value) -> bool)
    requires
        forall|i: int| 0 <= i < s.len() ==> !pred(#[trigger] s[i]),
    ensures
        s.filter(pred) == Seq::<Value>::empty(),
    decreases s.len(),
{
    reveal(Seq::filter);
    if s.len() > 0 {
        lemma_filter_none(s.drop_last(), pred);
    }
}

proof fn lemma_filter_single(x: Value, pred: spec_fn(Value) -> bool)
    ensures
        seq![x].filter(pred) == (if pred(x) {
            seq![x]
        } else {
            Seq::<Value>::empty()
        }),
{
    reveal_with_fuel(Seq::filter, 2);
    assert(seq![x].drop_last() =~= Seq::<Value>::empty());
    assert(Seq::<Value>::empty().push(x) =~= seq![x]);
}

proof fn lemma_trace_stable<K: Fn(&Value) -> Result<Value, RuntimeError>, P: Fn(&Value, &Value) -> Result<
    bool,
    RuntimeError,
>>(
    key_fn: K,
    precedes: P,
    lt: spec_fn(Value, Value) -> bool,
    kf: spec_fn(Value) -> Value,
    items: Seq<Value>,
    trace: Seq<Seq<(Value, Value)>>,
    k: int,
    k0: Value,
)
    requires
        sort_trace(key_fn, precedes, items, trace),
        answers_as(precedes, lt),
        strict_weak(lt),
        keys_answer_as(key_fn, kf),
        0 <= k <= items.len(),
    ensures
        forall|t: int| 0 <= t < trace[k].len() ==> (#[trigger] trace[k][t]).1 == kf(trace[k][t].0),
        firsts(trace[k]).filter(key_class(lt, kf, k0)) == items.take(k).filter(key_class(lt, kf, k0)),
    decreases k,
{
    let p = key_class(lt, kf, k0);
    if k == 0 {
        assert(firsts(trace[0]) =~= Seq::<Value>::empty());
        assert(items.take(0) =~= Seq::<Value>::empty());
    } else {
        lemma_trace_stable(key_fn, precedes, lt, kf, items, trace, k - 1, k0);
        lemma_trace_ordered(key_fn, precedes, lt, items, trace, k - 1);
        assert(step_taken(key_fn, precedes, items, trace, k - 1));
        let (key, pos) = choose|key: Value, pos: int|
            #[trigger] insertion_step(key_fn, precedes, items, k - 1, trace[k - 1], key, pos, trace[k]);
        let prev = trace[k - 1];
        let x = items[k - 1];
        assert(key == kf(x));
        let s = trace[k];
        assert forall|t: int| 0 <= t < s.len() implies (#[trigger] s[t]).1 == kf(s[t].0) by {
            if t < pos {
                assert(s[t] == prev[t]);
            } else if t > pos {
                assert(s[t] == prev[t - 1]);
            }
        }
        let f = firsts(prev);
        let a = f.take(pos);
        let b = f.skip(pos);
        assert(firsts(s) =~= a + (seq![x] + b));
        assert(f =~= a + b);
        assert(items.take(k) =~= items.take(k - 1) + seq![x]);
        Seq::filter_distributes_over_add(a, seq![x] + b, p);
        Seq::filter_distributes_over_add(seq![x], b, p);
        Seq::filter_distributes_over_add(a, b, p);
        Seq::filter_distributes_over_add(items.take(k - 1), seq![x], p);
        lemma_filter_single(x, p);
        if p(x) {
            assert forall|i: int| 0 <= i < b.len() implies !p(#[trigger] b[i]) by {
                let j = pos + i;
                assert(b[i] == prev[j].0);
                assert(prev[j].1 == kf(prev[j].0));
                assert(precedes.ensures((&key, &prev[pos].1), Ok::<bool, RuntimeError>(true)));
                assert(lt(key, prev[pos].1));
                if p(b[i]) {
                    let ky = prev[j].1;
                    assert(equivalent(lt, ky, k0) && equivalent(lt, key, k0));
                    assert(!lt(key, ky));
                    if j > pos {
                        assert(!lt(prev[j].1, prev[pos].1));
                    }
                }
            }
            lemma_filter_none(b, p);
            assert(firsts(s).filter(p) =~= a.filter(p) + seq![x]);
            assert(a.filter(p) + b.filter(p) =~= a.filter(p));
        } else {
            assert(seq![x].filter(p) + b.filter(p) =~= b.filter(p));
            assert(items.take(k - 1).filter(p) + seq![x].filter(p) =~= items.take(k - 1).filter(p));
        }
    }
}

/// Sorting by insertion is stable: when the key function answers as `kf`
/// and the predicate as a strict weak order `lt`, the elements whose keys
/// are equivalent to any `k0` come out in the order they came in.
pub proof fn lemma_insertion_sort_stable<K: Fn(&Value) -> Result<Value, RuntimeError>, P: Fn(&Value, &Value) -> Result<
    bool,
    RuntimeError,
>>(
    key_fn: K,
    precedes: P,
    lt: spec_fn(Value, Value) -> bool,
    kf: spec_fn(Value) -> Value,
    items: Seq<Value>,
    trace: Seq<Seq<(Value, Value)>>,
)
    requires
        sort_trace(key_fn, precedes, items, trace),
        answers_as(precedes, lt),
        strict_weak(lt),
        keys_answer_as(key_fn, kf),
    ensures
        forall|k0: Value|
            #[trigger] firsts(trace.last()).filter(key_class(lt, kf, k0)) == items.filter(key_class(lt, kf, k0)),
{
    assert forall|k0: Value|
        #[trigger] firsts(trace.last()).filter(key_class(lt, kf, k0)) == items.filter(key_class(lt, kf, k0)) by {
        lemma_trace_stable(key_fn, precedes, lt, kf, items, trace, items.len() as int, k0);
        assert(items.take(items.len() as int) =~= items);
    }
}

} // verus!
