//! The shape of the `SETF` expansion of a place whose accessor was defined
//! by a long `DEFSETF`: one fresh temporary for each argument form that is
//! bound (the required ones, the optional ones supplied, those of the rest
//! list, and the values of the keyword parameters supplied), those forms
//! as the values, in order, the access form that calls the accessor on the
//! temporaries (keyword names kept in front of theirs), and a fresh store
//! variable. Argument forms are named by their position among the place's
//! arguments.
use vstd::prelude::*;
use crate::printer::{decimal, decimal_text};
use crate::text::{chars_of, join_text, string_from};

verus! {

broadcast use vstd::std_specs::vec::group_vec_axioms;

/// An element of the access form.
#[derive(Clone, Copy, Debug, PartialEq, Eq, Structural)]
pub enum AccessItem {
    /// The place's operator.
    Operator,
    /// The temporary of that index.
    Temporary(usize),
    /// The argument form at that position (a keyword name).
    Argument(usize),
}

/// The expansion: the temporaries' names, the positions of the argument
/// forms they are bound to, the access form and the store variable.
pub struct DefsetfExpansion {
    pub temporaries: Vec<String>,
    pub values: Vec<usize>,
    pub access: Vec<AccessItem>,
    pub store: String,
}

/// The name of the fresh temporary numbered `c`.
pub open spec fn temporary_name(c: int) -> Seq<char> {
    "NCL-SETF-TEMP-"@ + decimal(c)
}

/// The positions of the supplied keyword values, in keyword parameter order.
pub open spec fn supplied_values(kv: Seq<Option<usize>>) -> Seq<usize>
    decreases kv.len(),
{
    if kv.len() == 0 {
        Seq::empty()
    } else {
        supplied_values(kv.drop_last()) + match kv.last() {
            Some(p) => seq![p],
            None => Seq::empty(),
        }
    }
}

/// How many argument forms the rest list binds: the value of each
/// keyword pair when there are keyword parameters, else every argument
/// from `key_start` on.
pub open spec fn rest_count(n: int, key_start: int, has_rest: bool, has_keys: bool) -> int {
    if !has_rest {
        0
    } else if has_keys {
        (n - key_start) / 2
    } else {
        n - key_start
    }
}

/// The positions of the argument forms the temporaries are bound to.
pub open spec fn expansion_values(
    n: int,
    key_start: int,
    has_rest: bool,
    has_keys: bool,
    kv: Seq<Option<usize>>,
) -> Seq<usize> {
    Seq::new(key_start as nat, |i: int| i as usize) + Seq::new(
        rest_count(n, key_start, has_rest, has_keys) as nat,
        |p: int|
            if has_keys {
                (key_start + 2 * p + 1) as usize
            } else {
                (key_start + p) as usize
            },
    ) + if has_keys && !has_rest {
        supplied_values(kv)
    } else {
        Seq::empty()
    }
}

/// The access form: the operator, then each temporary in order, each
/// keyword value's temporary preceded by its keyword name form.
pub open spec fn expansion_access(
    n: int,
    key_start: int,
    has_rest: bool,
    has_keys: bool,
    kv: Seq<Option<usize>>,
) -> Seq<AccessItem> {
    let r = rest_count(n, key_start, has_rest, has_keys);
    let s = supplied_values(kv);
    seq![AccessItem::Operator] + Seq::new(key_start as nat, |i: int| AccessItem::Temporary(i as usize)) + if has_keys {
        Seq::new(
            (2 * r) as nat,
            |x: int|
                if x % 2 == 0 {
                    AccessItem::Argument((key_start + x) as usize)
                } else {
                    AccessItem::Temporary((key_start + x / 2) as usize)
                },
        )
    } else {
        Seq::new(r as nat, |p: int| AccessItem::Temporary((key_start + p) as usize))
    } + if has_keys && !has_rest {
        Seq::new(
            (2 * s.len()) as nat,
            |x: int|
                if x % 2 == 0 {
                    AccessItem::Argument((s[x / 2] - 1) as usize)
                } else {
                    AccessItem::Temporary((key_start + r + x / 2) as usize)
                },
        )
    } else {
        Seq::empty()
    }
}

/// The name of the fresh temporary numbered `c`.
fn fresh_name(c: u64) -> (r: String)
    ensures
        r@ == temporary_name(c as int),
{
    let p = chars_of("NCL-SETF-TEMP-");
    let d = decimal_text(c as i128);
    string_from(&join_text(&p, &d))
}

/// The positions of the supplied keyword values.
fn supplied_positions(kv: &Vec<Option<usize>>) -> (r: Vec<usize>)
    ensures
        r@ == supplied_values(kv@),
{
    let mut out: Vec<usize> = Vec::new();
    let mut k: usize = 0;
    while k < kv.len()
        invariant
            k <= kv.len(),
            out@ == supplied_values(kv@.take(k as int)),
        decreases kv.len() - k,
    {
        proof {
            assert(kv@.take(k + 1).drop_last() =~= kv@.take(k as int));
        }
        match kv[k] {
            Some(p) => out.push(p),
            None => {},
        }
        proof {
            assert(out@ =~= supplied_values(kv@.take(k + 1)));
        }
        k = k + 1;
    }
    assert(kv@.take(kv.len() as int) =~= kv@);
    out
}

/// The expansion of a long-`DEFSETF` place with `n` argument forms, the
/// optional ones supplied ending at `key_start`, and `keyword_values` the
/// position of the value form of each keyword parameter supplied (in the
/// lambda list's order). The temporaries are numbered from `counter` on,
/// the store variable after them; where keyword parameters are read, the
/// keyword arguments come in pairs.
pub fn long_defsetf_expansion(
    n: usize,
    key_start: usize,
    has_rest: bool,
    has_keys: bool,
    keyword_values: &Vec<Option<usize>>,
    counter: u64,
) -> (r: DefsetfExpansion)
    requires
        key_start <= n,
        forall|q: int| 0 <= q < keyword_values.len() ==> (#[trigger] keyword_values@[q] matches Some(p) ==> 1 <= p < n),
        counter + n + keyword_values.len() + 1 <= u64::MAX,
        n + keyword_values.len() <= usize::MAX,
    ensures
        r.values@ == expansion_values(n as int, key_start as int, has_rest, has_keys, keyword_values@),
        r.access@ == expansion_access(n as int, key_start as int, has_rest, has_keys, keyword_values@),
        r.temporaries.len() == r.values.len(),
        forall|k: int| 0 <= k < r.temporaries.len() ==> #[trigger] r.temporaries@[k]@ == temporary_name(counter + k),
        r.store@ == temporary_name(counter + r.values.len()),
{
    let rc: usize = if !has_rest {
        0
    } else if has_keys {
        (n - key_start) / 2
    } else {
        n - key_start
    };
    let s = if has_keys && !has_rest {
        supplied_positions(keyword_values)
    } else {
        Vec::new()
    };
    let ghost sv = supplied_values(keyword_values@);
    proof {
        lemma_supplied_bound(keyword_values@);
        assert forall|t: int| 0 <= t < sv.len() implies 1 <= #[trigger] sv[t] < n by {
            let w = choose|w: int| 0 <= w < keyword_values@.len() && #[trigger] keyword_values@[w] == Some(sv[t]);
            assert(keyword_values@[w] matches Some(p) ==> 1 <= p < n);
        }
    }
    let mut values: Vec<usize> = Vec::new();
    let mut access: Vec<AccessItem> = Vec::new();
    access.push(AccessItem::Operator);
    let mut i: usize = 0;
    while i < key_start
        invariant
            i <= key_start <= n,
            values@ =~= Seq::new(i as nat, |x: int| x as usize),
            access@ =~= seq![AccessItem::Operator] + Seq::new(i as nat, |x: int| AccessItem::Temporary(x as usize)),
        decreases key_start - i,
    {
        values.push(i);
        access.push(AccessItem::Temporary(i));
        i = i + 1;
    }
    let ghost v0 = values@;
    let ghost a0 = access@;
    let mut p: usize = 0;
    while p < rc
        invariant
            p <= rc,
            key_start <= n,
            rc == rest_count(n as int, key_start as int, has_rest, has_keys),
            values@ =~= v0 + Seq::new(
                p as nat,
                |y: int|
                    if has_keys {
                        (key_start + 2 * y + 1) as usize
                    } else {
                        (key_start + y) as usize
                    },
            ),
            has_keys ==> access@ =~= a0 + Seq::new(
                (2 * p) as nat,
                |x: int|
                    if x % 2 == 0 {
                        AccessItem::Argument((key_start + x) as usize)
                    } else {
                        AccessItem::Temporary((key_start + x / 2) as usize)
                    },
            ),
            !has_keys ==> access@ =~= a0 + Seq::new(p as nat, |y: int| AccessItem::Temporary((key_start + y) as usize)),
        decreases rc - p,
    {
        if has_keys {
            values.push(key_start + 2 * p + 1);
            access.push(AccessItem::Argument(key_start + 2 * p));
            access.push(AccessItem::Temporary(key_start + p));
        } else {
            values.push(key_start + p);
            access.push(AccessItem::Temporary(key_start + p));
        }
        p = p + 1;
    }
    let ghost v1 = values@;
    let ghost a1 = access@;
    let base = key_start + rc;
    let mut q: usize = 0;
    while q < s.len()
        invariant
            q <= s.len(),
            base == key_start + rc,
            base <= n,
            s@ == (if has_keys && !has_rest {
                sv
            } else {
                Seq::<usize>::empty()
            }),
            forall|t: int| 0 <= t < sv.len() ==> 1 <= #[trigger] sv[t] < n,
            sv.len() <= keyword_values.len(),
            n + keyword_values.len() <= usize::MAX,
            values@ =~= v1 + s@.take(q as int),
            access@ =~= a1 + Seq::new(
                (2 * q) as nat,
                |x: int|
                    if x % 2 == 0 {
                        AccessItem::Argument((s@[x / 2] - 1) as usize)
                    } else {
                        AccessItem::Temporary((base + x / 2) as usize)
                    },
            ),
        decreases s.len() - q,
    {
        let at = s[q];
        values.push(at);
        access.push(AccessItem::Argument(at - 1));
        access.push(AccessItem::Temporary(base + q));
        proof {
            assert(s@.take(q + 1) =~= s@.take(q as int).push(at));
        }
        q = q + 1;
    }
    proof {
        assert(s@.take(s.len() as int) =~= s@);
    }
    let mut temporaries: Vec<String> = Vec::new();
    let mut k: usize = 0;
    while k < values.len()
        invariant
            k <= values.len(),
            values.len() <= n + keyword_values.len(),
            counter + n + keyword_values.len() + 1 <= u64::MAX,
            temporaries.len() == k,
            forall|x: int| 0 <= x < k ==> #[trigger] temporaries@[x]@ == temporary_name(counter + x),
        decreases values.len() - k,
    {
        temporaries.push(fresh_name(counter + k as u64));
        k = k + 1;
    }
    let store = fresh_name(counter + values.len() as u64);
    DefsetfExpansion { temporaries, values, access, store }
}

/// The supplied keyword values are among the given positions.
proof fn lemma_supplied_bound(kv: Seq<Option<usize>>)
    ensures
        supplied_values(kv).len() <= kv.len(),
        forall|t: int|
            #![trigger supplied_values(kv)[t]]
            0 <= t < supplied_values(kv).len() ==> exists|q: int|
                0 <= q < kv.len() && #[trigger] kv[q] == Some(supplied_values(kv)[t]),
    decreases kv.len(),
{
    if kv.len() > 0 {
        lemma_supplied_bound(kv.drop_last());
        let s0 = supplied_values(kv.drop_last());
        assert forall|t: int|
            #![trigger supplied_values(kv)[t]]
            0 <= t < supplied_values(kv).len() implies exists|q: int|
                0 <= q < kv.len() && #[trigger] kv[q] == Some(supplied_values(kv)[t]) by {
            if t < s0.len() {
                let q = choose|q: int| 0 <= q < kv.drop_last().len() && #[trigger] kv.drop_last()[q] == Some(s0[t]);
                assert(kv[q] == Some(supplied_values(kv)[t]));
            } else {
                assert(kv[kv.len() - 1] == Some(supplied_values(kv)[t]));
            }
        }
    }
}

} // verus!
