//! The slot values of a structure built by a BOA constructor. The
//! parameters are bound in order, each to its argument, else to the value
//! of its own init form, else to the default of the slot of its name; each
//! slot then takes the value of the last parameter bound to it, else its
//! own default. A slot's default is the value of its init form, else NIL.
//! The init forms are evaluated by the caller (`eval`): a parameter's with
//! the values of the parameters bound before it, a slot's in the
//! environment the structure was defined in (with no bound values).
use vstd::prelude::*;
use crate::error::RuntimeError;
use crate::text::{chars_of, same_text};
use crate::value::Value;

verus! {

broadcast use vstd::std_specs::vec::group_vec_axioms;

/// A parameter of a BOA lambda list, in binding order, with the argument
/// it received (`None` where none was supplied) and whether it has an
/// init form of its own.
pub struct BoaParameter {
    pub name: String,
    pub supplied: Option<Value>,
    pub has_init: bool,
}

/// A slot of the structure: its name and whether it has an init form.
pub struct BoaSlot {
    pub name: String,
    pub has_init: bool,
}

/// An init form to evaluate: that of a parameter or of a slot, by index.
#[derive(Clone, Copy, Debug, PartialEq, Eq, Structural)]
pub enum BoaInit {
    Parameter(usize),
    Slot(usize),
}

/// `eval` answered `r` on `init` with the bound values `bound`.
pub open spec fn evaluated<F: Fn(&BoaInit, &Vec<Value>) -> Result<Value, RuntimeError>>(
    eval: F,
    init: BoaInit,
    bound: Seq<Value>,
    r: Result<Value, RuntimeError>,
) -> bool {
    exists|v: Vec<Value>| #[trigger] eval.ensures((&init, &v), r) && v@ == bound
}

/// `j` is the first slot named `name`.
pub open spec fn first_slot(slots: Seq<BoaSlot>, name: Seq<char>, j: int) -> bool {
    &&& 0 <= j < slots.len()
    &&& slots[j].name@ == name
    &&& forall|k: int| 0 <= k < j ==> slots[k].name@ != name
}

/// No slot is named `name`.
pub open spec fn no_slot(slots: Seq<BoaSlot>, name: Seq<char>) -> bool {
    forall|k: int| 0 <= k < slots.len() ==> slots[k].name@ != name
}

/// The default for the name `name`: the init form of the first slot of
/// that name evaluated, NIL where that slot has none or no slot has the
/// name.
pub open spec fn slot_default<F: Fn(&BoaInit, &Vec<Value>) -> Result<Value, RuntimeError>>(
    eval: F,
    slots: Seq<BoaSlot>,
    name: Seq<char>,
    r: Result<Value, RuntimeError>,
) -> bool {
    ||| no_slot(slots, name) && r == Ok::<Value, RuntimeError>(Value::Nil)
    ||| exists|j: int|
        #[trigger] first_slot(slots, name, j) && if slots[j].has_init {
            evaluated(eval, BoaInit::Slot(j as usize), Seq::empty(), r)
        } else {
            r == Ok::<Value, RuntimeError>(Value::Nil)
        }
}

/// The value parameter `i` is bound to, given the values bound before it:
/// its argument, else its own init form's value, else the slot default.
pub open spec fn parameter_value<F: Fn(&BoaInit, &Vec<Value>) -> Result<Value, RuntimeError>>(
    eval: F,
    params: Seq<BoaParameter>,
    slots: Seq<BoaSlot>,
    i: int,
    bound: Seq<Value>,
    r: Result<Value, RuntimeError>,
) -> bool {
    match params[i].supplied {
        Some(v) => r == Ok::<Value, RuntimeError>(v),
        None => if params[i].has_init {
            evaluated(eval, BoaInit::Parameter(i as usize), bound, r)
        } else {
            slot_default(eval, slots, params[i].name@, r)
        },
    }
}

/// `vals` are the values the parameters were bound to, in order.
pub open spec fn bound_values<F: Fn(&BoaInit, &Vec<Value>) -> Result<Value, RuntimeError>>(
    eval: F,
    params: Seq<BoaParameter>,
    slots: Seq<BoaSlot>,
    vals: Seq<Value>,
) -> bool {
    &&& vals.len() == params.len()
    &&& forall|i: int|
        0 <= i < params.len() ==> #[trigger] parameter_value(eval, params, slots, i, vals.take(i), Ok(vals[i]))
}

/// Parameter `i` is bound to slot `j`: `j` is the first slot of its name.
pub open spec fn fills(params: Seq<BoaParameter>, slots: Seq<BoaSlot>, i: int, j: int) -> bool {
    0 <= i < params.len() && first_slot(slots, params[i].name@, j)
}

/// Parameter `i` is the last one bound to slot `j`.
pub open spec fn last_filler(params: Seq<BoaParameter>, slots: Seq<BoaSlot>, i: int, j: int) -> bool {
    &&& fills(params, slots, i, j)
    &&& forall|k: int| i < k < params.len() ==> !#[trigger] fills(params, slots, k, j)
}

/// The value of slot `j`: that of the last parameter bound to it, else
/// its default.
pub open spec fn slot_value<F: Fn(&BoaInit, &Vec<Value>) -> Result<Value, RuntimeError>>(
    eval: F,
    params: Seq<BoaParameter>,
    slots: Seq<BoaSlot>,
    vals: Seq<Value>,
    j: int,
    r: Result<Value, RuntimeError>,
) -> bool {
    ||| exists|i: int| #[trigger] last_filler(params, slots, i, j) && r == Ok::<Value, RuntimeError>(vals[i])
    ||| (forall|i: int| !#[trigger] fills(params, slots, i, j)) && slot_default(eval, slots, slots[j].name@, r)
}

/// Some init form failed with `e`.
pub open spec fn init_failed<F: Fn(&BoaInit, &Vec<Value>) -> Result<Value, RuntimeError>>(eval: F, e: RuntimeError) -> bool {
    exists|init: BoaInit, bound: Seq<Value>| #[trigger] evaluated(eval, init, bound, Err(e))
}

/// The first slot named `name`, if any.
fn first_slot_index(slots: &Vec<BoaSlot>, name: &String) -> (r: Option<usize>)
    ensures
        r matches Some(j) ==> first_slot(slots@, name@, j as int),
        r is None ==> no_slot(slots@, name@),
{
    let n = chars_of(name.as_str());
    let mut k: usize = 0;
    while k < slots.len()
        invariant
            k <= slots.len(),
            n@ == name@,
            forall|x: int| 0 <= x < k ==> slots@[x].name@ != name@,
        decreases slots.len() - k,
    {
        let s = chars_of(slots[k].name.as_str());
        if same_text(&s, &n) {
            return Some(k);
        }
        k = k + 1;
    }
    None
}

/// Evaluates the default for `name` (see `slot_default`).
fn default_for<F: Fn(&BoaInit, &Vec<Value>) -> Result<Value, RuntimeError>>(
    slots: &Vec<BoaSlot>,
    name: &String,
    eval: &F,
) -> (r: Result<Value, RuntimeError>)
    requires
        forall|init: &BoaInit, v: &Vec<Value>| eval.requires((init, v)),
    ensures
        slot_default(*eval, slots@, name@, r),
{
    match first_slot_index(slots, name) {
        None => Ok(Value::Nil),
        Some(j) => {
            if slots[j].has_init {
                let none: Vec<Value> = Vec::new();
                let init = BoaInit::Slot(j);
                let r = eval(&init, &none);
                assert(eval.ensures((&init, &none), r));
                assert(none@ =~= Seq::<Value>::empty());
                assert(first_slot(slots@, name@, j as int));
                r
            } else {
                assert(first_slot(slots@, name@, j as int));
                Ok(Value::Nil)
            }
        },
    }
}

/// The values the parameters are bound to, in order (see
/// `parameter_value`).
fn parameter_values<F: Fn(&BoaInit, &Vec<Value>) -> Result<Value, RuntimeError>>(
    params: &Vec<BoaParameter>,
    slots: &Vec<BoaSlot>,
    eval: &F,
) -> (r: Result<Vec<Value>, RuntimeError>)
    requires
        forall|init: &BoaInit, v: &Vec<Value>| eval.requires((init, v)),
    ensures
        r matches Ok(vals) ==> bound_values(*eval, params@, slots@, vals@),
        r matches Err(e) ==> init_failed(*eval, e),
{
    let mut vals: Vec<Value> = Vec::new();
    let mut i: usize = 0;
    while i < params.len()
        invariant
            i <= params.len(),
            vals.len() == i,
            forall|init: &BoaInit, v: &Vec<Value>| eval.requires((init, v)),
            forall|x: int|
                0 <= x < i ==> #[trigger] parameter_value(*eval, params@, slots@, x, vals@.take(x), Ok(vals@[x])),
        decreases params.len() - i,
    {
        let ghost before = vals@;
        let r = match &params[i].supplied {
            Some(v) => Ok(v.clone()),
            None => {
                if params[i].has_init {
                    let init = BoaInit::Parameter(i);
                    let r = eval(&init, &vals);
                    assert(eval.ensures((&init, &vals), r));
                    r
                } else {
                    default_for(slots, &params[i].name, eval)
                }
            },
        };
        assert(vals@.take(i as int) =~= vals@);
        match r {
            Ok(v) => {
                assert(parameter_value(*eval, params@, slots@, i as int, before, Ok(v)));
                vals.push(v);
                proof {
                    assert forall|x: int| 0 <= x < i + 1 implies #[trigger] parameter_value(
                        *eval,
                        params@,
                        slots@,
                        x,
                        vals@.take(x),
                        Ok(vals@[x]),
                    ) by {
                        assert(vals@.take(x) =~= before.take(x));
                    }
                }
            },
            Err(e) => {
                assert(parameter_value(*eval, params@, slots@, i as int, before, Err(e)));
                return Err(e);
            },
        }
        i = i + 1;
    }
    Ok(vals)
}

/// The last parameter bound to slot `j`, given the first slot of each
/// parameter's name.
fn last_filler_of(targets: &Vec<Option<usize>>, j: usize) -> (r: Option<usize>)
    ensures
        r matches Some(i) ==> i < targets.len() && targets@[i as int] == Some(j) && forall|k: int|
            i < k < targets.len() ==> targets@[k] != Some(j),
        r is None ==> forall|k: int| 0 <= k < targets.len() ==> targets@[k] != Some(j),
{
    let mut k: usize = targets.len();
    while k > 0
        invariant
            k <= targets.len(),
            forall|x: int| k <= x < targets.len() ==> targets@[x] != Some(j),
        decreases k,
    {
        k = k - 1;
        if targets[k] == Some(j) {
            return Some(k);
        }
    }
    None
}

/// The values of the slots of a structure a BOA constructor builds:
/// the parameters are bound in order (see `parameter_value`), then each
/// slot takes the value of the last parameter bound to it, else its
/// default (see `slot_value`). The first init form that fails ends the
/// construction with its error.
pub fn structure_boa_slot_values<F: Fn(&BoaInit, &Vec<Value>) -> Result<Value, RuntimeError>>(
    params: &Vec<BoaParameter>,
    slots: &Vec<BoaSlot>,
    eval: F,
) -> (r: Result<Vec<Value>, RuntimeError>)
    requires
        forall|init: &BoaInit, v: &Vec<Value>| eval.requires((init, v)),
    ensures
        r matches Ok(values) ==> exists|vals: Seq<Value>|
            #[trigger] bound_values(eval, params@, slots@, vals) && values.len() == slots.len() && forall|j: int|
                0 <= j < slots.len() ==> #[trigger] slot_value(eval, params@, slots@, vals, j, Ok(values@[j])),
        r matches Err(e) ==> init_failed(eval, e),
{
    let vals = parameter_values(params, slots, &eval)?;
    let mut targets: Vec<Option<usize>> = Vec::new();
    let mut i: usize = 0;
    while i < params.len()
        invariant
            i <= params.len(),
            targets.len() == i,
            forall|x: int, j: int| 0 <= x < i ==> (targets@[x] == Some(j as usize) && 0 <= j <= usize::MAX <==> #[trigger] fills(params@, slots@, x, j)),
        decreases params.len() - i,
    {
        let t = first_slot_index(slots, &params[i].name);
        proof {
            assert forall|j: int| (t == Some(j as usize) && 0 <= j <= usize::MAX) <==> #[trigger] fills(params@, slots@, i as int, j) by {
                if fills(params@, slots@, i as int, j) {
                    match t {
                        Some(j2) => {
                            assert(first_slot(slots@, params@[i as int].name@, j2 as int));
                            if (j2 as int) < j {
                                assert(slots@[j2 as int].name@ != params@[i as int].name@);
                            } else if j < j2 as int {
                                assert(slots@[j].name@ != params@[i as int].name@);
                            }
                        },
                        None => {
                            assert(slots@[j].name@ != params@[i as int].name@);
                        },
                    }
                }
            }
        }
        targets.push(t);
        i = i + 1;
    }
    let mut values: Vec<Value> = Vec::new();
    let mut j: usize = 0;
    while j < slots.len()
        invariant
            j <= slots.len(),
            values.len() == j,
            targets.len() == params.len(),
            vals@.len() == params.len(),
            bound_values(eval, params@, slots@, vals@),
            forall|init: &BoaInit, v: &Vec<Value>| eval.requires((init, v)),
            forall|x: int, y: int| 0 <= x < params.len() ==> (targets@[x] == Some(y as usize) && 0 <= y <= usize::MAX <==> #[trigger] fills(params@, slots@, x, y)),
            forall|y: int| 0 <= y < j ==> #[trigger] slot_value(eval, params@, slots@, vals@, y, Ok(values@[y])),
        decreases slots.len() - j,
    {
        match last_filler_of(&targets, j) {
            Some(i) => {
                assert(fills(params@, slots@, i as int, j as int));
                assert forall|k: int| i < k < params.len() implies !#[trigger] fills(params@, slots@, k, j as int) by {
                    assert(targets@[k] != Some(j));
                }
                assert(last_filler(params@, slots@, i as int, j as int));
                values.push(vals[i].clone());
            },
            None => {
                assert forall|k: int| !#[trigger] fills(params@, slots@, k, j as int) by {
                    if 0 <= k < params.len() {
                        assert(targets@[k] != Some(j));
                    }
                }
                let d = default_for(slots, &slots[j].name, &eval);
                match d {
                    Ok(v) => values.push(v),
                    Err(e) => {
                        proof {
                            let ghost w = choose|w: int| #[trigger] first_slot(slots@, slots@[j as int].name@, w);
                            assert(evaluated(eval, BoaInit::Slot(w as usize), Seq::empty(), Err(e)));
                        }
                        return Err(e);
                    },
                }
            },
        }
        j = j + 1;
    }
    Ok(values)
}

} // verus!
