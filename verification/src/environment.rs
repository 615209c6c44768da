//! Lexical scopes: variables bound by name in nested scopes, the global
//! scope at the root, and the first binding that a list of candidate names
//! finds walking outwards.
use vstd::prelude::*;
use crate::value::Value;

verus! {

/// One lexical scope: its enclosing scope, its variables, and the names it
/// declares special.
pub struct Scope {
    pub parent: Option<usize>,
    pub variables: Vec<(String, Value)>,
    pub specials: Vec<String>,
}

/// A handle on a scope of a runtime.
#[derive(Clone, Copy, Debug, PartialEq, Eq)]
pub struct Environment {
    pub scope: usize,
}

/// Every scope's parent comes before it, so walking outwards ends.
pub open spec fn scopes_well_formed(scopes: Seq<Scope>) -> bool {
    &&& scopes.len() > 0
    &&& scopes[0].parent is None
    &&& forall|i: int| 0 <= i < scopes.len() ==> match (#[trigger] scopes[i]).parent {
        Some(p) => p < i,
        None => true,
    }
}

/// The value of the first entry named `name`, from position `k` on.
pub open spec fn entry_from(es: Seq<(String, Value)>, name: Seq<char>, k: int) -> Option<Value>
    decreases es.len() - k,
{
    if k < 0 || k >= es.len() {
        None
    } else if es[k].0@ == name {
        Some(es[k].1)
    } else {
        entry_from(es, name, k + 1)
    }
}

/// The value of the first entry named `name`.
pub open spec fn entry_value(es: Seq<(String, Value)>, name: Seq<char>) -> Option<Value> {
    entry_from(es, name, 0)
}

/// The value that the first of the candidate names, from the `k`-th on,
/// that has an entry finds.
pub open spec fn first_entry_of(es: Seq<(String, Value)>, candidates: Seq<Seq<char>>, k: int) -> Option<Value>
    decreases candidates.len() - k,
{
    if k < 0 || k >= candidates.len() {
        None
    } else {
        match entry_value(es, candidates[k]) {
            Some(v) => Some(v),
            None => first_entry_of(es, candidates, k + 1),
        }
    }
}

/// The binding the candidate names find from scope `i` outwards: the
/// innermost scope with an entry for one of them.
pub open spec fn scope_lookup(scopes: Seq<Scope>, i: int, candidates: Seq<Seq<char>>) -> Option<Value>
    decreases i,
{
    if i < 0 || i >= scopes.len() {
        None
    } else {
        match first_entry_of(scopes[i].variables@, candidates, 0) {
            Some(v) => Some(v),
            None => match scopes[i].parent {
                Some(p) => if p < i {
                    scope_lookup(scopes, p as int, candidates)
                } else {
                    None
                },
                None => None,
            },
        }
    }
}

/// Whether a scope from `i` outwards declares one of the names special.
pub open spec fn declared_special(scopes: Seq<Scope>, i: int, candidates: Seq<Seq<char>>) -> bool
    decreases i,
{
    if i < 0 || i >= scopes.len() {
        false
    } else if exists|k: int, j: int|
        0 <= k < candidates.len() && 0 <= j < scopes[i].specials@.len() && scopes[i].specials@[j]@
            == candidates[k] {
        true
    } else {
        match scopes[i].parent {
            Some(p) => if p < i {
                declared_special(scopes, p as int, candidates)
            } else {
                false
            },
            None => false,
        }
    }
}

/// The names a list of strings spells.
pub open spec fn texts(v: Seq<String>) -> Seq<Seq<char>> {
    Seq::new(v.len(), |i: int| v[i]@)
}

/// Whether two strings are the same text.
pub fn same_string(a: &String, b: &String) -> (r: bool)
    ensures
        r == (a@ == b@),
{
    String::eq(a, b)
}

/// The first entry named `name`: its position.
pub fn find_entry(es: &Vec<(String, Value)>, name: &String) -> (r: Option<usize>)
    ensures
        match r {
            Some(k) => k < es.len() && entry_value(es@, name@) == Some(es@[k as int].1) && es@[k as int].0@
                == name@ && forall|j: int| 0 <= j < k ==> es@[j].0@ != name@,
            None => entry_value(es@, name@) is None,
        },
{
    let mut k: usize = 0;
    while k < es.len()
        invariant
            k <= es.len(),
            entry_value(es@, name@) == entry_from(es@, name@, k as int),
            forall|j: int| 0 <= j < k ==> es@[j].0@ != name@,
        decreases es.len() - k,
    {
        if same_string(&es[k].0, name) {
            return Some(k);
        }
        k = k + 1;
    }
    None
}

/// The value the first candidate with an entry finds.
pub fn find_first_entry(es: &Vec<(String, Value)>, candidates: &Vec<String>) -> (r: Option<Value>)
    ensures
        r == first_entry_of(es@, texts(candidates@), 0),
{
    let ghost c = texts(candidates@);
    let mut k: usize = 0;
    while k < candidates.len()
        invariant
            k <= candidates.len(),
            c == texts(candidates@),
            first_entry_of(es@, c, 0) == first_entry_of(es@, c, k as int),
        decreases candidates.len() - k,
    {
        match find_entry(es, &candidates[k]) {
            Some(i) => {
                return Some(es[i].1.clone());
            },
            None => {},
        }
        k = k + 1;
    }
    None
}

/// Binds `name` to `value`: replaces the value of the first entry so named,
/// or adds an entry.
pub fn put_entry(es: &mut Vec<(String, Value)>, name: &String, value: Value)
    ensures
        entry_value(final(es)@, name@) == Some(value),
        forall|other: Seq<char>| other != name@ ==> entry_value(final(es)@, other) == entry_value(old(es)@, other),
{
    match find_entry(es, name) {
        Some(k) => {
            let ghost before = es@;
            let key = es[k].0.clone();
            es.set(k, (key, value));
            proof {
                assert forall|other: Seq<char>| other != name@ implies entry_value(es@, other) == entry_value(
                    before,
                    other,
                ) by {
                    lemma_entry_same_keys(before, es@, other, 0);
                }
                lemma_entry_found(es@, name@, k as int);
            }
        },
        None => {
            let ghost before = es@;
            es.push((name.clone(), value));
            proof {
                lemma_entry_pushed(before, es@, name@);
                assert forall|other: Seq<char>| other != name@ implies entry_value(es@, other) == entry_value(
                    before,
                    other,
                ) by {
                    lemma_entry_extended(before, es@, other, 0);
                }
            }
        },
    }
}

proof fn lemma_entry_same_keys(a: Seq<(String, Value)>, b: Seq<(String, Value)>, name: Seq<char>, k: int)
    requires
        a.len() == b.len(),
        0 <= k,
        forall|j: int| 0 <= j < a.len() ==> a[j].0@ == b[j].0@,
        forall|j: int| 0 <= j < a.len() && a[j].0@ == name ==> a[j].1 == b[j].1,
    ensures
        entry_from(a, name, k) == entry_from(b, name, k),
    decreases a.len() - k,
{
    if k < a.len() {
        lemma_entry_same_keys(a, b, name, k + 1);
    }
}

proof fn lemma_entry_found(es: Seq<(String, Value)>, name: Seq<char>, k: int)
    requires
        0 <= k < es.len(),
        es[k].0@ == name,
        forall|j: int| 0 <= j < k ==> es[j].0@ != name,
    ensures
        entry_value(es, name) == Some(es[k].1),
{
    lemma_entry_skip(es, name, 0, k);
}

proof fn lemma_entry_skip(es: Seq<(String, Value)>, name: Seq<char>, from: int, to: int)
    requires
        0 <= from <= to <= es.len(),
        forall|j: int| from <= j < to ==> es[j].0@ != name,
    ensures
        entry_from(es, name, from) == entry_from(es, name, to),
    decreases to - from,
{
    if from < to {
        lemma_entry_skip(es, name, from + 1, to);
    }
}

proof fn lemma_entry_pushed(a: Seq<(String, Value)>, b: Seq<(String, Value)>, name: Seq<char>)
    requires
        entry_value(a, name) is None,
        b.len() == a.len() + 1,
        forall|j: int| 0 <= j < a.len() ==> a[j] == b[j],
        b[a.len() as int].0@ == name,
    ensures
        entry_value(b, name) == Some(b[a.len() as int].1),
{
    lemma_entry_absent(a, name, 0);
    lemma_entry_found(b, name, a.len() as int);
}

proof fn lemma_entry_absent(a: Seq<(String, Value)>, name: Seq<char>, k: int)
    requires
        0 <= k,
        entry_from(a, name, k) is None,
    ensures
        forall|j: int| k <= j < a.len() ==> a[j].0@ != name,
    decreases a.len() - k,
{
    if k < a.len() {
        lemma_entry_absent(a, name, k + 1);
    }
}

proof fn lemma_entry_extended(a: Seq<(String, Value)>, b: Seq<(String, Value)>, name: Seq<char>, k: int)
    requires
        0 <= k,
        b.len() == a.len() + 1,
        forall|j: int| 0 <= j < a.len() ==> a[j] == b[j],
        b[a.len() as int].0@ != name,
    ensures
        entry_from(b, name, k) == entry_from(a, name, k),
    decreases b.len() - k,
{
    if k < b.len() {
        lemma_entry_extended(a, b, name, k + 1);
    }
}

/// Whether a list of strings holds `name`.
pub fn holds_name(v: &Vec<String>, name: &String) -> (r: bool)
    ensures
        r == texts(v@).contains(name@),
{
    let mut i: usize = 0;
    while i < v.len()
        invariant
            i <= v.len(),
            forall|j: int| 0 <= j < i ==> v@[j]@ != name@,
        decreases v.len() - i,
    {
        if same_string(&v[i], name) {
            assert(texts(v@)[i as int] == name@);
            return true;
        }
        i = i + 1;
    }
    proof {
        if texts(v@).contains(name@) {
            let j = choose|j: int| 0 <= j < texts(v@).len() && texts(v@)[j] == name@;
            assert(v@[j]@ == name@);
        }
    }
    false
}

/// Adds `name` to a list of names unless it is there.
pub fn insert_name(v: &mut Vec<String>, name: &String)
    ensures
        texts(final(v)@).contains(name@),
        forall|other: Seq<char>| other != name@ ==> (texts(final(v)@).contains(other) <==> texts(old(v)@).contains(other)),
{
    if !holds_name(v, name) {
        let ghost before = v@;
        v.push(name.clone());
        proof {
            assert(texts(v@)[before.len() as int] == name@);
            assert forall|other: Seq<char>| other != name@ implies (texts(v@).contains(other) <==> texts(
                before,
            ).contains(other)) by {
                if texts(v@).contains(other) {
                    let j = choose|j: int| 0 <= j < texts(v@).len() && texts(v@)[j] == other;
                    assert(j < before.len());
                    assert(texts(before)[j] == other);
                }
                if texts(before).contains(other) {
                    let j = choose|j: int| 0 <= j < texts(before).len() && texts(before)[j] == other;
                    assert(texts(v@)[j] == other);
                }
            }
        }
    }
}

/// The innermost scope, from scope `i` outwards, with an entry named `name`.
pub open spec fn scope_holding(scopes: Seq<Scope>, i: int, name: Seq<char>) -> Option<int>
    decreases i,
{
    if i < 0 || i >= scopes.len() {
        None
    } else if entry_value(scopes[i].variables@, name) is Some {
        Some(i)
    } else {
        match scopes[i].parent {
            Some(p) => if p < i {
                scope_holding(scopes, p as int, name)
            } else {
                None
            },
            None => None,
        }
    }
}

/// The binding the candidate names find from scope `start` outwards (see
/// `scope_lookup`).
pub fn find_in_scopes(scopes: &Vec<Scope>, start: usize, candidates: &Vec<String>) -> (r: Option<Value>)
    requires
        scopes_well_formed(scopes@),
        start < scopes.len(),
    ensures
        r == scope_lookup(scopes@, start as int, texts(candidates@)),
{
    let ghost c = texts(candidates@);
    let mut i: usize = start;
    loop
        invariant
            scopes_well_formed(scopes@),
            i < scopes.len(),
            c == texts(candidates@),
            scope_lookup(scopes@, start as int, c) == scope_lookup(scopes@, i as int, c),
        decreases i,
    {
        match find_first_entry(&scopes[i].variables, candidates) {
            Some(v) => {
                return Some(v);
            },
            None => {},
        }
        assert(scopes@[i as int].parent matches Some(p) ==> p < i);
        match scopes[i].parent {
            Some(p) => {
                i = p;
            },
            None => {
                return None;
            },
        }
    }
}

/// Whether a scope from `start` outwards declares one of the names special.
pub fn special_in_scopes(scopes: &Vec<Scope>, start: usize, candidates: &Vec<String>) -> (r: bool)
    requires
        scopes_well_formed(scopes@),
        start < scopes.len(),
    ensures
        r == declared_special(scopes@, start as int, texts(candidates@)),
{
    let ghost c = texts(candidates@);
    let mut i: usize = start;
    loop
        invariant
            scopes_well_formed(scopes@),
            i < scopes.len(),
            c == texts(candidates@),
            declared_special(scopes@, start as int, c) == declared_special(scopes@, i as int, c),
        decreases i,
    {
        let specials = &scopes[i].specials;
        let mut k: usize = 0;
        while k < candidates.len()
            invariant
                k <= candidates.len(),
                c == texts(candidates@),
                i < scopes.len(),
                specials == &scopes@[i as int].specials,
                declared_special(scopes@, start as int, c) == declared_special(scopes@, i as int, c),
                forall|x: int, j: int|
                    0 <= x < k && 0 <= j < specials@.len() ==> specials@[j]@ != c[x],
            decreases candidates.len() - k,
        {
            if holds_name(specials, &candidates[k]) {
                proof {
                    let j = choose|j: int| 0 <= j < texts(specials@).len() && texts(specials@)[j] == candidates@[k as int]@;
                    assert(scopes@[i as int].specials@[j]@ == c[k as int]);
                    assert(exists|kk: int, jj: int|
                        0 <= kk < c.len() && 0 <= jj < scopes@[i as int].specials@.len()
                            && scopes@[i as int].specials@[jj]@ == c[kk]);
                    assert(declared_special(scopes@, i as int, c));
                }
                return true;
            }
            proof {
                assert forall|j: int| 0 <= j < specials@.len() implies specials@[j]@ != c[k as int] by {
                    if specials@[j]@ == c[k as int] {
                        assert(texts(specials@)[j] == candidates@[k as int]@);
                    }
                }
            }
            k = k + 1;
        }
        assert(scopes@[i as int].parent matches Some(p) ==> p < i);
        match scopes[i].parent {
            Some(p) => {
                i = p;
            },
            None => {
                return false;
            },
        }
    }
}

/// The innermost scope from `start` outwards with an entry named `name`.
pub fn find_holding_scope(scopes: &Vec<Scope>, start: usize, name: &String) -> (r: Option<usize>)
    requires
        scopes_well_formed(scopes@),
        start < scopes.len(),
    ensures
        match r {
            Some(j) => j < scopes.len() && scope_holding(scopes@, start as int, name@) == Some(j as int),
            None => scope_holding(scopes@, start as int, name@) is None,
        },
{
    let mut i: usize = start;
    loop
        invariant
            scopes_well_formed(scopes@),
            i < scopes.len(),
            scope_holding(scopes@, start as int, name@) == scope_holding(scopes@, i as int, name@),
        decreases i,
    {
        if find_entry(&scopes[i].variables, name).is_some() {
            return Some(i);
        }
        assert(scopes@[i as int].parent matches Some(p) ==> p < i);
        match scopes[i].parent {
            Some(p) => {
                i = p;
            },
            None => {
                return None;
            },
        }
    }
}

/// Binds `name` to `value` in scope `j`.
pub fn put_in_scope(scopes: &mut Vec<Scope>, j: usize, name: &String, value: Value)
    requires
        j < old(scopes).len(),
    ensures
        final(scopes).len() == old(scopes).len(),
        forall|i: int| 0 <= i < old(scopes).len() && i != j ==> final(scopes)@[i] == old(scopes)@[i],
        final(scopes)@[j as int].parent == old(scopes)@[j as int].parent,
        final(scopes)@[j as int].specials == old(scopes)@[j as int].specials,
        entry_value(final(scopes)@[j as int].variables@, name@) == Some(value),
        forall|other: Seq<char>|
            other != name@ ==> entry_value(final(scopes)@[j as int].variables@, other) == entry_value(
                old(scopes)@[j as int].variables@,
                other,
            ),
{
    let scope = &mut scopes[j];
    put_entry(&mut scope.variables, name, value);
}

} // verus!
