//! Variables named by symbols written with escapes: they are found under
//! their exact name only, never through package candidates. In a lexical
//! scope such a variable is kept under its name behind a NUL character,
//! which no read symbol name starts with; in the dynamic state it has its
//! own bindings, globals, specials and constants.
use vstd::prelude::*;
use crate::dynamic::{bound_value, entry_put, scope_put, DynamicState};
use crate::environment::{
    declared_special, entry_value, find_holding_scope, find_in_scopes, holds_name, put_entry, put_in_scope,
    scope_holding, scope_lookup, special_in_scopes, texts, Environment,
};
use crate::conditions::last_match;
use crate::runtime::Runtime;
use crate::text::{chars_of, owned, string_from};
use crate::value::Value;

verus! {

broadcast use vstd::std_specs::vec::group_vec_axioms;

/// The lexical key of an exactly named variable.
pub open spec fn exact_key(name: Seq<char>) -> Seq<char> {
    seq!['\0'] + name
}

/// The position of the latest exact dynamic binding of a name.
pub open spec fn latest_exact(d: DynamicState, name: Seq<char>) -> Option<int> {
    last_match(d.exact_bindings@.len() as int, |i: int| d.exact_bindings@[i].0@ == name)
}

/// The dynamic value of an exactly named variable: its latest exact
/// binding, else its exact global value.
pub open spec fn exact_dynamic_value(d: DynamicState, name: Seq<char>) -> Option<Value> {
    match latest_exact(d, name) {
        Some(i) => Some(d.exact_bindings@[i].1),
        None => entry_value(d.exact_globals@, name),
    }
}

/// What a reference to an exactly named variable finds: its innermost
/// lexical binding, else its dynamic value; the unbound marker reads as
/// nothing.
pub open spec fn exact_variable_value(rt: Runtime, env: Environment, name: Seq<char>) -> Option<Value> {
    match scope_lookup(rt.scopes@, env.scope as int, seq![exact_key(name)]) {
        Some(v) => bound_value(Some(v)),
        None => bound_value(exact_dynamic_value(rt.dynamic, name)),
    }
}

/// What defining an exactly named variable does: a dynamic binding when
/// a scope declares it special or it is globally special, else a lexical
/// binding in the environment's scope.
pub open spec fn exact_defined(before: Runtime, after: Runtime, name: Seq<char>, value: Value, env: Environment) -> bool {
    &&& after.packages == before.packages
    &&& if declared_special(before.scopes@, env.scope as int, seq![exact_key(name)]) || texts(
        before.dynamic.exact_special_names@,
    ).contains(name) {
        &&& after.scopes == before.scopes
        &&& after.dynamic.exact_bindings@ == before.dynamic.exact_bindings@.push(
            after.dynamic.exact_bindings@.last(),
        )
        &&& after.dynamic.exact_bindings@.last().0@ == name
        &&& after.dynamic.exact_bindings@.last().1 == value
        &&& after.dynamic.bindings == before.dynamic.bindings
        &&& after.dynamic.exact_globals == before.dynamic.exact_globals
    } else {
        &&& after.dynamic == before.dynamic
        &&& scope_put(before.scopes@, after.scopes@, env.scope as int, exact_key(name), value)
    }
}

/// What assigning an exactly named variable does: a lexical binding takes
/// the value; otherwise its latest exact binding, else, when it is
/// special, its global value; a constant is left alone and the assignment
/// fails, as does one to a name that is neither bound nor special.
pub open spec fn exact_assigned(before: Runtime, after: Runtime, name: Seq<char>, value: Value, env: Environment, r: bool) -> bool {
    let b = before.dynamic;
    let a = after.dynamic;
    &&& after.packages == before.packages
    &&& if scope_lookup(before.scopes@, env.scope as int, seq![exact_key(name)]) is Some && scope_holding(
        before.scopes@,
        env.scope as int,
        exact_key(name),
    ) is Some {
        &&& r
        &&& a == b
        &&& scope_put(
            before.scopes@,
            after.scopes@,
            scope_holding(before.scopes@, env.scope as int, exact_key(name))->0,
            exact_key(name),
            value,
        )
    } else {
        &&& after.scopes == before.scopes
        &&& match latest_exact(b, name) {
            Some(i) => if texts(b.exact_constants@).contains(name) {
                !r && a == b
            } else {
                &&& r
                &&& a.exact_bindings@ == b.exact_bindings@.update(i, (b.exact_bindings@[i].0, value))
                &&& a.exact_globals == b.exact_globals
                &&& a.bindings == b.bindings
            },
            None => if texts(b.exact_special_names@).contains(name) {
                if texts(b.exact_constants@).contains(name) {
                    !r && a == b
                } else {
                    &&& r
                    &&& entry_put(b.exact_globals@, a.exact_globals@, name, value)
                    &&& a.exact_bindings == b.exact_bindings
                    &&& a.bindings == b.bindings
                }
            } else {
                !r && a == b
            },
        }
    }
}

/// After an exactly named variable is defined lexically, a reference to
/// it from the same environment finds the value (unless it is the
/// unbound marker).
pub proof fn lemma_exact_lookup_after_define(before: Runtime, after: Runtime, name: Seq<char>, value: Value, env: Environment)
    requires
        before.well_formed(),
        before.holds_scope(env),
        exact_defined(before, after, name, value, env),
        !declared_special(before.scopes@, env.scope as int, seq![exact_key(name)]),
        !texts(before.dynamic.exact_special_names@).contains(name),
        !(value is Unbound),
    ensures
        exact_variable_value(after, env, name) == Some(value),
{
    let names = seq![exact_key(name)];
    assert(entry_value(after.scopes@[env.scope as int].variables@, names[0]) == Some(value));
    assert(crate::environment::first_entry_of(after.scopes@[env.scope as int].variables@, names, 0) == Some(value));
}

/// After an exactly named variable is bound dynamically, a reference to it
/// that no lexical binding captures finds the value: the new binding is
/// the latest.
pub proof fn lemma_exact_lookup_after_dynamic_define(
    before: Runtime,
    after: Runtime,
    name: Seq<char>,
    value: Value,
    env: Environment,
)
    requires
        before.well_formed(),
        before.holds_scope(env),
        exact_defined(before, after, name, value, env),
        declared_special(before.scopes@, env.scope as int, seq![exact_key(name)]) || texts(
            before.dynamic.exact_special_names@,
        ).contains(name),
        scope_lookup(before.scopes@, env.scope as int, seq![exact_key(name)]) is None,
        !(value is Unbound),
    ensures
        exact_variable_value(after, env, name) == Some(value),
{
    let bs = after.dynamic.exact_bindings@;
    let last = bs.len() - 1;
    assert(bs[last] == bs.last());
    assert(latest_exact(after.dynamic, name) == Some(last));
}

/// The lexical key of an exactly named variable, as a one-name list.
fn exact_keys(name: &str) -> (r: Vec<String>)
    ensures
        texts(r@) == seq![exact_key(name@)],
        r.len() == 1,
        r@[0]@ == exact_key(name@),
{
    let text = chars_of(name);
    let mut key: Vec<char> = Vec::new();
    key.push('\0');
    let mut i: usize = 0;
    while i < text.len()
        invariant
            i <= text.len(),
            key@ == seq!['\0'] + text@.take(i as int),
        decreases text.len() - i,
    {
        key.push(text[i]);
        proof {
            assert(text@.take(i + 1) =~= text@.take(i as int).push(text@[i as int]));
        }
        i = i + 1;
    }
    proof {
        assert(text@.take(text.len() as int) =~= text@);
    }
    let mut keys: Vec<String> = Vec::new();
    keys.push(string_from(&key));
    assert(texts(keys@) =~= seq![exact_key(name@)]);
    keys
}

/// The position of the latest exact binding of a name.
fn find_latest_exact(bs: &Vec<(String, Value)>, name: &String) -> (r: Option<usize>)
    ensures
        match r {
            Some(i) => i < bs.len() && last_match(bs@.len() as int, |j: int| bs@[j].0@ == name@) == Some(i as int),
            None => last_match(bs@.len() as int, |j: int| bs@[j].0@ == name@) is None,
        },
{
    let ghost p = |j: int| bs@[j].0@ == name@;
    let mut k: usize = bs.len();
    while k > 0
        invariant
            k <= bs.len(),
            p == (|j: int| bs@[j].0@ == name@),
            last_match(bs.len() as int, p) == last_match(k as int, p),
        decreases k,
    {
        if crate::environment::same_string(&bs[k - 1].0, name) {
            return Some(k - 1);
        }
        k = k - 1;
    }
    None
}

impl Runtime {
    /// The value of an exactly named variable (see `exact_variable_value`).
    pub fn lookup_exact_in(&self, name: &str, environment: &Environment) -> (r: Option<Value>)
        requires
            self.well_formed(),
            self.holds_scope(*environment),
        ensures
            r == exact_variable_value(*self, *environment, name@),
    {
        let keys = exact_keys(name);
        match find_in_scopes(&self.scopes, environment.scope, &keys) {
            Some(v) => match v {
                Value::Unbound => None,
                other => Some(other),
            },
            None => self.lookup_symbol_value_exact(name),
        }
    }

    /// Whether an exactly named symbol has a dynamic value.
    pub fn is_symbol_value_bound_exact(&self, name: &str) -> (r: bool)
        ensures
            r == (bound_value(exact_dynamic_value(self.dynamic, name@)) is Some),
    {
        self.lookup_symbol_value_exact(name).is_some()
    }

    /// Defines an exactly named variable in an environment (see
    /// `exact_defined`).
    pub fn define_exact_in(&mut self, name: &str, value: Value, environment: &Environment)
        requires
            old(self).well_formed(),
            old(self).holds_scope(*environment),
        ensures
            final(self).well_formed(),
            exact_defined(*old(self), *final(self), name@, value, *environment),
    {
        let keys = exact_keys(name);
        let n = owned(name);
        if special_in_scopes(&self.scopes, environment.scope, &keys) || holds_name(&self.dynamic.exact_special_names, &n) {
            self.dynamic.exact_bindings.push((n, value));
        } else {
            let ghost before = self.scopes@;
            put_in_scope(&mut self.scopes, environment.scope, &keys[0], value);
            proof {
                assert forall|i: int| 0 <= i < self.scopes@.len() implies match (#[trigger] self.scopes@[i]).parent {
                    Some(p) => p < i,
                    None => true,
                } by {
                    assert(self.scopes@[i].parent == before[i].parent);
                }
            }
        }
    }

    /// Assigns an exactly named variable (see `exact_assigned`); false when
    /// nothing could be assigned.
    pub fn set_exact_in(&mut self, name: &str, value: Value, environment: &Environment) -> (r: bool)
        requires
            old(self).well_formed(),
            old(self).holds_scope(*environment),
        ensures
            final(self).well_formed(),
            exact_assigned(*old(self), *final(self), name@, value, *environment, r),
    {
        let keys = exact_keys(name);
        let n = owned(name);
        if find_in_scopes(&self.scopes, environment.scope, &keys).is_some() {
            match find_holding_scope(&self.scopes, environment.scope, &keys[0]) {
                Some(j) => {
                    let ghost before = self.scopes@;
                    put_in_scope(&mut self.scopes, j, &keys[0], value);
                    proof {
                        assert forall|i: int| 0 <= i < self.scopes@.len() implies match (
                        #[trigger] self.scopes@[i]).parent {
                            Some(p) => p < i,
                            None => true,
                        } by {
                            assert(self.scopes@[i].parent == before[i].parent);
                        }
                    }
                    return true;
                },
                None => {},
            }
        }
        match find_latest_exact(&self.dynamic.exact_bindings, &n) {
            Some(i) => {
                if holds_name(&self.dynamic.exact_constants, &n) {
                    return false;
                }
                let key = self.dynamic.exact_bindings[i].0.clone();
                self.dynamic.exact_bindings.set(i, (key, value));
                return true;
            },
            None => {},
        }
        if holds_name(&self.dynamic.exact_special_names, &n) {
            if holds_name(&self.dynamic.exact_constants, &n) {
                return false;
            }
            put_entry(&mut self.dynamic.exact_globals, &n, value);
            return true;
        }
        false
    }
}

} // verus!
