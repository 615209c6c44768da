//! Variables: the names a symbol may be bound under, special (dynamic)
//! variables and constants, the stack of dynamic bindings, and how lookup,
//! definition and assignment choose between lexical and dynamic bindings.
use vstd::prelude::*;
use crate::conditions::{last_match, RestartBinding};
use crate::environment::{
    declared_special, entry_from, entry_value, find_first_entry, find_holding_scope, find_in_scopes, first_entry_of, holds_name,
    put_entry, put_in_scope, scope_holding, scope_lookup, scopes_well_formed, special_in_scopes, texts, Environment,
    Scope,
};
use crate::names::{canonical_symbol_name, normalize_package_name, package_name_of, qualified, split_of, split_symbol};
use crate::package::{home_of, lists, list_has, package_index, PackageRecord, PackageRegistry};
use crate::runtime::Runtime;
use crate::syntax::{normalize, normalize_name};
use crate::error::{is_invalid, RuntimeError};
use crate::packages::message_with;
use crate::syntax::Span;
use crate::text::{chars_of, join_text, owned, same_ignoring_case, string_from, upcase_seq};
use crate::value::Value;

verus! {

/// The dynamic state of a runtime: which names are special or constant,
/// the global values of special variables, the stack of dynamic bindings,
/// and the established restarts. Each has a normalized and an exact
/// (unnormalized, for escaped names) side.
pub struct DynamicState {
    pub special_names: Vec<String>,
    pub exact_special_names: Vec<String>,
    pub constants: Vec<String>,
    pub exact_constants: Vec<String>,
    pub globals: Vec<(String, Value)>,
    pub exact_globals: Vec<(String, Value)>,
    pub bindings: Vec<(String, Value)>,
    pub exact_bindings: Vec<(String, Value)>,
    pub restart_bindings: Vec<RestartBinding>,
}

impl DynamicState {
    /// No special variables, constants, bindings or restarts.
    pub fn new() -> (r: DynamicState)
        ensures
            r.special_names@.len() == 0,
            r.exact_special_names@.len() == 0,
            r.constants@.len() == 0,
            r.exact_constants@.len() == 0,
            r.globals@.len() == 0,
            r.exact_globals@.len() == 0,
            r.bindings@.len() == 0,
            r.exact_bindings@.len() == 0,
            r.restart_bindings@.len() == 0,
    {
        DynamicState {
            special_names: Vec::new(),
            exact_special_names: Vec::new(),
            constants: Vec::new(),
            exact_constants: Vec::new(),
            globals: Vec::new(),
            exact_globals: Vec::new(),
            bindings: Vec::new(),
            exact_bindings: Vec::new(),
            restart_bindings: Vec::new(),
        }
    }
}

/// The name of the package a name designates, or the name itself.
pub open spec fn canonical_of(ps: Seq<PackageRecord>, name: Seq<char>) -> Seq<char> {
    match package_index(ps, name) {
        Some(i) => ps[i].name@,
        None => name,
    }
}

/// The canonical name of a symbol that package `package` imports.
pub open spec fn imported_symbol_of(ps: Seq<PackageRecord>, package: Seq<char>, symbol: Seq<char>) -> Option<Seq<char>> {
    match package_index(ps, package) {
        Some(i) => match home_of(ps[i].imports@, symbol) {
            Some(h) => Some(qualified(h, symbol)),
            None => None,
        },
        None => None,
    }
}

/// Whether package `package` shadows `symbol`.
pub open spec fn shadowed_in(ps: Seq<PackageRecord>, package: Seq<char>, symbol: Seq<char>) -> bool {
    match package_index(ps, package) {
        Some(i) => lists(ps[i].shadows@, symbol),
        None => false,
    }
}

/// The packages that package `package` uses.
pub open spec fn uses_of(ps: Seq<PackageRecord>, package: Seq<char>) -> Seq<String> {
    match package_index(ps, package) {
        Some(i) => ps[i].uses@,
        None => Seq::empty(),
    }
}

/// Whether package `package` exports `symbol`.
pub open spec fn exported_from(ps: Seq<PackageRecord>, package: Seq<char>, symbol: Seq<char>) -> bool {
    match package_index(ps, package) {
        Some(i) => lists(ps[i].exports@, symbol),
        None => false,
    }
}

/// Whether a name is spelled as an uninterned symbol, `#:name`.
pub open spec fn uninterned_spelling(name: Seq<char>) -> bool {
    name.len() >= 2 && name[0] == '#' && name[1] == ':'
}

/// The package and symbol a name refers to, and whether it was qualified:
/// a qualified name's package, else the current package, by its
/// canonical name.
pub open spec fn reference_parts(r: PackageRegistry, name: Seq<char>) -> (Seq<char>, Seq<char>, bool) {
    match split_of(name) {
        Some(p) => (canonical_of(r.packages@, package_name_of(p.0)), normalize(p.1), true),
        None => (canonical_of(r.packages@, r.current@), normalize(name), false),
    }
}

/// The name a symbol is bound under first: its import's canonical name, a
/// qualified name's canonical name, or the normalized name.
pub open spec fn first_candidate(r: PackageRegistry, name: Seq<char>) -> Seq<char> {
    let parts = reference_parts(r, name);
    match imported_symbol_of(r.packages@, parts.0, parts.1) {
        Some(x) => x,
        None => if parts.2 {
            qualified(parts.0, parts.1)
        } else {
            normalize(name)
        },
    }
}

/// `acc` extended, for each used package from the `k`-th on that exports
/// the symbol, by the symbol's name in that package, unless already there.
pub open spec fn inherited(ps: Seq<PackageRecord>, uses: Seq<String>, symbol: Seq<char>, k: int, acc: Seq<Seq<char>>) -> Seq<
    Seq<char>,
>
    decreases uses.len() - k,
{
    if k < 0 || k >= uses.len() {
        acc
    } else {
        let candidate = uses[k]@ + "::"@ + symbol;
        let next = if exported_from(ps, uses[k]@, symbol) && !acc.contains(candidate) {
            acc.push(candidate)
        } else {
            acc
        };
        inherited(ps, uses, symbol, k + 1, next)
    }
}

/// The names a symbol may be bound under, most specific first: an
/// uninterned symbol under its own name; otherwise the first candidate,
/// then, unless the package shadows the symbol, its name in each used
/// package that exports it.
pub open spec fn candidates_of(r: PackageRegistry, name: Seq<char>) -> Seq<Seq<char>> {
    if uninterned_spelling(name) {
        seq![normalize(name)]
    } else {
        let parts = reference_parts(r, name);
        let first = seq![first_candidate(r, name)];
        if shadowed_in(r.packages@, parts.0, parts.1) {
            first
        } else {
            inherited(r.packages@, uses_of(r.packages@, parts.0), parts.1, 0, first)
        }
    }
}

proof fn lemma_inherited_keeps(ps: Seq<PackageRecord>, uses: Seq<String>, symbol: Seq<char>, k: int, acc: Seq<Seq<char>>)
    requires
        0 <= k,
    ensures
        inherited(ps, uses, symbol, k, acc).len() >= acc.len(),
        forall|i: int| 0 <= i < acc.len() ==> inherited(ps, uses, symbol, k, acc)[i] == acc[i],
    decreases uses.len() - k,
{
    if k < uses.len() {
        let candidate = uses[k]@ + "::"@ + symbol;
        let next = if exported_from(ps, uses[k]@, symbol) && !acc.contains(candidate) {
            acc.push(candidate)
        } else {
            acc
        };
        lemma_inherited_keeps(ps, uses, symbol, k + 1, next);
        assert forall|i: int| 0 <= i < acc.len() implies next[i] == acc[i] by {}
    }
}

/// The first of a symbol's candidate names is `first_candidate`.
pub proof fn lemma_candidates_start(r: PackageRegistry, name: Seq<char>)
    ensures
        candidates_of(r, name).len() >= 1,
        !uninterned_spelling(name) ==> candidates_of(r, name)[0] == first_candidate(r, name),
{
    if !uninterned_spelling(name) {
        let parts = reference_parts(r, name);
        lemma_inherited_keeps(
            r.packages@,
            uses_of(r.packages@, parts.0),
            parts.1,
            0,
            seq![first_candidate(r, name)],
        );
        assert(seq![first_candidate(r, name)][0] == first_candidate(r, name));
    }
}

/// The position of the latest dynamic binding of one of the names.
pub open spec fn latest_binding(bs: Seq<(String, Value)>, names: Seq<Seq<char>>) -> Option<int> {
    last_match(bs.len() as int, |i: int| names.contains(bs[i].0@))
}

/// The dynamic value of the names: their latest binding, else the global
/// value of the first that has one.
pub open spec fn dynamic_value(d: DynamicState, names: Seq<Seq<char>>) -> Option<Value> {
    match latest_binding(d.bindings@, names) {
        Some(i) => Some(d.bindings@[i].1),
        None => first_entry_of(d.globals@, names, 0),
    }
}

/// A value that is not the unbound marker.
pub open spec fn bound_value(v: Option<Value>) -> Option<Value> {
    match v {
        Some(x) => if x is Unbound {
            None
        } else {
            Some(x)
        },
        None => None,
    }
}

/// What a variable reference finds: the innermost lexical binding of one
/// of the names from the environment's scope outwards, else the dynamic
/// value; the unbound marker reads as nothing.
pub open spec fn variable_value(rt: Runtime, env: Environment, names: Seq<Seq<char>>) -> Option<Value> {
    match scope_lookup(rt.scopes@, env.scope as int, names) {
        Some(v) => bound_value(Some(v)),
        None => bound_value(dynamic_value(rt.dynamic, names)),
    }
}

/// The first of the names, from the `k`-th on, that is special.
pub open spec fn first_special(specials: Seq<String>, names: Seq<Seq<char>>, k: int) -> Option<Seq<char>>
    decreases names.len() - k,
{
    if k < 0 || k >= names.len() {
        None
    } else if texts(specials).contains(names[k]) {
        Some(names[k])
    } else {
        first_special(specials, names, k + 1)
    }
}

/// The name `DEFINE-IN` binds dynamically: the first candidate when a
/// scope declares one of them special, else the first globally special
/// one; None binds lexically.
pub open spec fn dynamic_binding_name(rt: Runtime, env: Environment, names: Seq<Seq<char>>) -> Option<Seq<char>> {
    if declared_special(rt.scopes@, env.scope as int, names) && names.len() > 0 {
        Some(names[0])
    } else {
        first_special(rt.dynamic.special_names@, names, 0)
    }
}

/// Scopes `a` are scopes `b` with scope `j` binding `name` to `value`.
pub open spec fn scope_put(b: Seq<Scope>, a: Seq<Scope>, j: int, name: Seq<char>, value: Value) -> bool {
    &&& a.len() == b.len()
    &&& 0 <= j < b.len()
    &&& forall|i: int| 0 <= i < b.len() && i != j ==> a[i] == b[i]
    &&& a[j].parent == b[j].parent
    &&& a[j].specials == b[j].specials
    &&& entry_value(a[j].variables@, name) == Some(value)
    &&& forall|other: Seq<char>|
        other != name ==> entry_value(a[j].variables@, other) == entry_value(b[j].variables@, other)
}

/// What `define_in` does: binds the name dynamically under
/// `dynamic_binding_name`, or lexically in the environment's scope under
/// its first candidate.
pub open spec fn defined_in(before: Runtime, after: Runtime, name: Seq<char>, value: Value, env: Environment) -> bool {
    let names = candidates_of(before.packages, name);
    &&& after.packages == before.packages
    &&& match dynamic_binding_name(before, env, names) {
        Some(n) => {
            &&& after.scopes == before.scopes
            &&& after.dynamic.bindings@.len() == before.dynamic.bindings@.len() + 1
            &&& after.dynamic.bindings@.drop_last() == before.dynamic.bindings@
            &&& after.dynamic.bindings@.last().0@ == n
            &&& after.dynamic.bindings@.last().1 == value
            &&& after.dynamic.globals == before.dynamic.globals
            &&& after.dynamic.special_names == before.dynamic.special_names
            &&& after.dynamic.constants == before.dynamic.constants
        },
        None => {
            &&& after.dynamic == before.dynamic
            &&& scope_put(before.scopes@, after.scopes@, env.scope as int, names[0], value)
        },
    }
}

impl PackageRegistry {
    /// The canonical name of a symbol that a package imports.
    pub fn imported_symbol_for(&self, package: &str, symbol: &str) -> (r: Option<String>)
        ensures
            match imported_symbol_of(self.packages@, package@, symbol@) {
                Some(x) => r matches Some(s) && s@ == x,
                None => r is None,
            },
    {
        match self.find(package) {
            None => None,
            Some(i) => match crate::package::import_home(&self.packages[i].imports, symbol) {
                Some(home) => Some(canonical_symbol_name(home.as_str(), symbol)),
                None => None,
            },
        }
    }

    /// Whether a package shadows a symbol.
    pub fn is_shadowed(&self, package: &str, symbol: &str) -> (r: bool)
        ensures
            r == shadowed_in(self.packages@, package@, symbol@),
    {
        match self.find(package) {
            None => false,
            Some(i) => list_has(&self.packages[i].shadows, symbol),
        }
    }

    /// Whether a package exports a symbol.
    pub fn is_exported(&self, package: &str, symbol: &str) -> (r: bool)
        ensures
            r == exported_from(self.packages@, package@, symbol@),
    {
        match self.find(package) {
            None => false,
            Some(i) => list_has(&self.packages[i].exports, symbol),
        }
    }

    /// The packages a package uses.
    pub fn use_packages_for(&self, package: &str) -> (r: Vec<String>)
        ensures
            r@ == uses_of(self.packages@, package@),
    {
        match self.find(package) {
            None => Vec::new(),
            Some(i) => {
                let uses = &self.packages[i].uses;
                let mut out: Vec<String> = Vec::new();
                let mut k: usize = 0;
                while k < uses.len()
                    invariant
                        k <= uses.len(),
                        out@ == uses@.take(k as int),
                    decreases uses.len() - k,
                {
                    out.push(uses[k].clone());
                    proof {
                        assert(uses@.take(k + 1) =~= uses@.take(k as int).push(uses@[k as int]));
                    }
                    k = k + 1;
                }
                proof {
                    assert(uses@.take(uses.len() as int) =~= uses@);
                }
                out
            },
        }
    }
}

/// Whether `name` begins with `#:`.
fn spelled_uninterned(name: &str) -> (r: bool)
    ensures
        r == uninterned_spelling(name@),
{
    let cs = chars_of(name);
    cs.len() >= 2 && cs[0] == '#' && cs[1] == ':'
}

/// The name of `symbol` in package `package`: `PACKAGE::SYMBOL`.
fn package_qualified(package: &String, symbol: &String) -> (r: String)
    ensures
        r@ == package@ + "::"@ + symbol@,
{
    let p = chars_of(package.as_str());
    let sep = chars_of("::");
    let s = chars_of(symbol.as_str());
    let a = join_text(&p, &sep);
    let b = join_text(&a, &s);
    string_from(&b)
}

impl Runtime {
    /// The runtime's scopes are well formed.
    pub open spec fn well_formed(self) -> bool {
        scopes_well_formed(self.scopes@)
    }

    /// Whether an environment is a scope of this runtime.
    pub open spec fn holds_scope(self, env: Environment) -> bool {
        env.scope < self.scopes@.len()
    }

    /// The names a symbol may be bound under (see `candidates_of`).
    pub fn dynamic_candidates(&self, name: &str) -> (r: Vec<String>)
        ensures
            texts(r@) == candidates_of(self.packages, name@),
    {
        if spelled_uninterned(name) {
            let mut r: Vec<String> = Vec::new();
            r.push(normalize_name(name));
            assert(texts(r@) =~= seq![normalize(name@)]);
            return r;
        }
        let (package_name, symbol_name, is_qualified) = match split_symbol(name) {
            Some((p, s, _)) => (normalize_package_name(p.as_str()), normalize_name(s.as_str()), true),
            None => (self.packages.current_package(), normalize_name(name), false),
        };
        let package_name = self.packages.canonical_package_name(package_name.as_str());
        let first = match self.packages.imported_symbol_for(package_name.as_str(), symbol_name.as_str()) {
            Some(imported) => imported,
            None => if is_qualified {
                canonical_symbol_name(package_name.as_str(), symbol_name.as_str())
            } else {
                normalize_name(name)
            },
        };
        let mut candidates: Vec<String> = Vec::new();
        candidates.push(first);
        let ghost parts = reference_parts(self.packages, name@);
        assert(package_name@ == parts.0 && symbol_name@ == parts.1);
        assert(texts(candidates@) =~= seq![first_candidate(self.packages, name@)]);
        if !self.packages.is_shadowed(package_name.as_str(), symbol_name.as_str()) {
            let uses = self.packages.use_packages_for(package_name.as_str());
            let ghost ps = self.packages.packages@;
            let mut k: usize = 0;
            while k < uses.len()
                invariant
                    k <= uses.len(),
                    ps == self.packages.packages@,
                    inherited(ps, uses@, symbol_name@, 0, seq![first_candidate(self.packages, name@)])
                        == inherited(ps, uses@, symbol_name@, k as int, texts(candidates@)),
                decreases uses.len() - k,
            {
                if self.packages.is_exported(uses[k].as_str(), symbol_name.as_str()) {
                    let candidate = package_qualified(&uses[k], &symbol_name);
                    if !holds_name(&candidates, &candidate) {
                        let ghost before = candidates@;
                        candidates.push(candidate);
                        assert(texts(candidates@) =~= texts(before).push(candidate@));
                    }
                }
                k = k + 1;
            }
        }
        candidates
    }
}

/// The latest dynamic binding of one of the names.
fn find_latest_binding(bs: &Vec<(String, Value)>, names: &Vec<String>) -> (r: Option<usize>)
    ensures
        match r {
            Some(i) => i < bs.len() && latest_binding(bs@, texts(names@)) == Some(i as int),
            None => latest_binding(bs@, texts(names@)) is None,
        },
{
    let ghost p = |i: int| texts(names@).contains(bs@[i].0@);
    let mut n: usize = bs.len();
    while n > 0
        invariant
            n <= bs.len(),
            p == (|i: int| texts(names@).contains(bs@[i].0@)),
            last_match(bs.len() as int, p) == last_match(n as int, p),
        decreases n,
    {
        if holds_name(names, &bs[n - 1].0) {
            return Some(n - 1);
        }
        n = n - 1;
    }
    None
}

/// The dynamic value of the names (see `dynamic_value`).
fn find_dynamic_value(d: &DynamicState, names: &Vec<String>) -> (r: Option<Value>)
    ensures
        r == dynamic_value(*d, texts(names@)),
{
    match find_latest_binding(&d.bindings, names) {
        Some(i) => Some(d.bindings[i].1.clone()),
        None => find_first_entry(&d.globals, names),
    }
}

/// The value unless it is the unbound marker.
fn bound(v: Option<Value>) -> (r: Option<Value>)
    ensures
        r == bound_value(v),
{
    match v {
        Some(Value::Unbound) => None,
        other => other,
    }
}

/// The first of the names that is special (see `first_special`).
fn find_first_special(specials: &Vec<String>, names: &Vec<String>) -> (r: Option<String>)
    ensures
        match first_special(specials@, texts(names@), 0) {
            Some(n) => r matches Some(s) && s@ == n,
            None => r is None,
        },
{
    let ghost c = texts(names@);
    let mut k: usize = 0;
    while k < names.len()
        invariant
            k <= names.len(),
            c == texts(names@),
            first_special(specials@, c, 0) == first_special(specials@, c, k as int),
        decreases names.len() - k,
    {
        if holds_name(specials, &names[k]) {
            return Some(names[k].clone());
        }
        k = k + 1;
    }
    None
}

/// The name `dynamic_binding_name` chooses is one of the candidates.
proof fn lemma_first_special_is_candidate(specials: Seq<String>, names: Seq<Seq<char>>, k: int)
    requires
        0 <= k,
    ensures
        first_special(specials, names, k) matches Some(n) ==> names.contains(n),
    decreases names.len() - k,
{
    if 0 <= k < names.len() && !texts(specials).contains(names[k]) {
        lemma_first_special_is_candidate(specials, names, k + 1);
    }
}

/// After a lexical definition, a reference to the name from the same
/// environment finds the defined value (unless it is the unbound marker).
pub proof fn lemma_lookup_after_define(before: Runtime, after: Runtime, name: Seq<char>, value: Value, env: Environment)
    requires
        before.well_formed(),
        before.holds_scope(env),
        defined_in(before, after, name, value, env),
        dynamic_binding_name(before, env, candidates_of(before.packages, name)) is None,
        !(value is Unbound),
    ensures
        variable_value(after, env, candidates_of(after.packages, name)) == Some(value),
{
    let names = candidates_of(before.packages, name);
    lemma_candidates_start(before.packages, name);
    assert(entry_value(after.scopes@[env.scope as int].variables@, names[0]) == Some(value));
    assert(first_entry_of(after.scopes@[env.scope as int].variables@, names, 0) == Some(value));
}

/// After a dynamic definition, a reference to the name that no lexical
/// binding captures finds the defined value: the new binding is the
/// latest.
pub proof fn lemma_lookup_after_dynamic_define(
    before: Runtime,
    after: Runtime,
    name: Seq<char>,
    value: Value,
    env: Environment,
)
    requires
        before.well_formed(),
        before.holds_scope(env),
        defined_in(before, after, name, value, env),
        dynamic_binding_name(before, env, candidates_of(before.packages, name)) is Some,
        scope_lookup(before.scopes@, env.scope as int, candidates_of(before.packages, name)) is None,
        !(value is Unbound),
    ensures
        variable_value(after, env, candidates_of(after.packages, name)) == Some(value),
{
    let names = candidates_of(before.packages, name);
    lemma_candidates_start(before.packages, name);
    lemma_first_special_is_candidate(before.dynamic.special_names@, names, 0);
    let bs = after.dynamic.bindings@;
    let last = bs.len() - 1;
    assert(bs[last] == bs.last());
    assert(names.contains(bs[last].0@)) by {
        if declared_special(before.scopes@, env.scope as int, names) && names.len() > 0 {
            assert(names[0] == names[0]);
        }
    }
    assert(latest_binding(bs, names) == Some(last));
}

impl Runtime {
    /// What a reference to a variable finds from an environment (see
    /// `variable_value`).
    pub fn lookup_in(&self, name: &str, environment: &Environment) -> (r: Option<Value>)
        requires
            self.well_formed(),
            self.holds_scope(*environment),
        ensures
            r == variable_value(*self, *environment, candidates_of(self.packages, name@)),
    {
        let candidates = self.dynamic_candidates(name);
        match find_in_scopes(&self.scopes, environment.scope, &candidates) {
            Some(v) => bound(Some(v)),
            None => bound(find_dynamic_value(&self.dynamic, &candidates)),
        }
    }

    /// The value of a symbol, dynamic bindings and globals only: the
    /// unbound marker reads as nothing.
    pub fn lookup_symbol_value_in(&self, name: &str) -> (r: Option<Value>)
        ensures
            r == bound_value(dynamic_value(self.dynamic, candidates_of(self.packages, name@))),
    {
        let candidates = self.dynamic_candidates(name);
        bound(find_dynamic_value(&self.dynamic, &candidates))
    }

    /// The dynamic value of a special variable, the unbound marker
    /// included.
    pub fn lookup_special(&self, name: &str) -> (r: Option<Value>)
        ensures
            r == dynamic_value(self.dynamic, candidates_of(self.packages, name@)),
    {
        let candidates = self.dynamic_candidates(name);
        find_dynamic_value(&self.dynamic, &candidates)
    }

    /// Whether a symbol has a value.
    pub fn is_symbol_value_bound(&self, name: &str) -> (r: bool)
        ensures
            r == (bound_value(dynamic_value(self.dynamic, candidates_of(self.packages, name@))) is Some),
    {
        self.lookup_symbol_value_in(name).is_some()
    }

    /// Whether a variable reference from an environment finds a value.
    pub fn is_bound_in(&self, name: &str, environment: &Environment) -> (r: bool)
        requires
            self.well_formed(),
            self.holds_scope(*environment),
        ensures
            r == (variable_value(*self, *environment, candidates_of(self.packages, name@)) is Some),
    {
        self.lookup_in(name, environment).is_some()
    }

    /// Defines a variable from an environment (see `defined_in`).
    pub fn define_in(&mut self, name: &str, value: Value, environment: &Environment)
        requires
            old(self).well_formed(),
            old(self).holds_scope(*environment),
        ensures
            final(self).well_formed(),
            defined_in(*old(self), *final(self), name@, value, *environment),
    {
        let candidates = self.dynamic_candidates(name);
        proof {
            lemma_candidates_start(self.packages, name@);
        }
        let local_special = special_in_scopes(&self.scopes, environment.scope, &candidates);
        let binding_name = if local_special {
            Some(candidates[0].clone())
        } else {
            find_first_special(&self.dynamic.special_names, &candidates)
        };
        let ghost before = self.dynamic.bindings@;
        match binding_name {
            Some(n) => {
                self.dynamic.bindings.push((n, value));
                assert(self.dynamic.bindings@.drop_last() =~= before);
            },
            None => {
                put_in_scope(&mut self.scopes, environment.scope, &candidates[0], value);
            },
        }
    }

    /// Pushes a dynamic binding: under the exact name, or under the
    /// symbol's first candidate name.
    pub fn define_dynamic(&mut self, name: &str, exact: bool, value: Value)
        ensures
            final(self).packages == old(self).packages,
            final(self).scopes == old(self).scopes,
            final(self).dynamic.globals == old(self).dynamic.globals,
            exact ==> final(self).dynamic.exact_bindings@ == old(self).dynamic.exact_bindings@.push(
                (final(self).dynamic.exact_bindings@.last().0, value),
            ) && final(self).dynamic.exact_bindings@.last().0@ == name@ && final(self).dynamic.bindings
                == old(self).dynamic.bindings,
            !exact ==> final(self).dynamic.bindings@ == old(self).dynamic.bindings@.push(
                (final(self).dynamic.bindings@.last().0, value),
            ) && final(self).dynamic.bindings@.last().0@ == candidates_of(old(self).packages, name@)[0]
                && final(self).dynamic.exact_bindings == old(self).dynamic.exact_bindings,
    {
        if exact {
            self.dynamic.exact_bindings.push((owned(name), value));
        } else {
            let candidates = self.dynamic_candidates(name);
            proof {
                lemma_candidates_start(self.packages, name@);
            }
            let first = candidates[0].clone();
            self.dynamic.bindings.push((first, value));
        }
    }

    /// The depths of the two binding stacks, to unwind to later.
    pub fn dynamic_depth(&self) -> (r: (usize, usize))
        ensures
            r.0 == self.dynamic.bindings@.len(),
            r.1 == self.dynamic.exact_bindings@.len(),
    {
        (self.dynamic.bindings.len(), self.dynamic.exact_bindings.len())
    }

    /// Drops the dynamic bindings made since the depths were taken.
    pub fn unwind_dynamic(&mut self, depth: usize, exact_depth: usize)
        ensures
            final(self).packages == old(self).packages,
            final(self).scopes == old(self).scopes,
            final(self).dynamic.globals == old(self).dynamic.globals,
            final(self).dynamic.special_names == old(self).dynamic.special_names,
            final(self).dynamic.constants == old(self).dynamic.constants,
            depth <= old(self).dynamic.bindings@.len() ==> final(self).dynamic.bindings@
                == old(self).dynamic.bindings@.take(depth as int),
            depth > old(self).dynamic.bindings@.len() ==> final(self).dynamic.bindings@
                == old(self).dynamic.bindings@,
            exact_depth <= old(self).dynamic.exact_bindings@.len() ==> final(self).dynamic.exact_bindings@
                == old(self).dynamic.exact_bindings@.take(exact_depth as int),
            exact_depth > old(self).dynamic.exact_bindings@.len() ==> final(self).dynamic.exact_bindings@
                == old(self).dynamic.exact_bindings@,
    {
        self.dynamic.bindings.truncate(depth);
        self.dynamic.exact_bindings.truncate(exact_depth);
    }
}

/// The scope and name an assignment updates lexically: the innermost
/// scope binding the name as written, else, for the first candidate bound
/// in some scope from `k` on, the innermost scope binding it.
pub open spec fn candidate_holder(scopes: Seq<Scope>, i: int, names: Seq<Seq<char>>, k: int) -> Option<(int, Seq<char>)>
    decreases names.len() - k,
{
    if k < 0 || k >= names.len() {
        None
    } else {
        match scope_holding(scopes, i, names[k]) {
            Some(j) => Some((j, names[k])),
            None => candidate_holder(scopes, i, names, k + 1),
        }
    }
}

/// See `candidate_holder`.
pub open spec fn lexical_target(scopes: Seq<Scope>, i: int, name: Seq<char>, names: Seq<Seq<char>>) -> Option<
    (int, Seq<char>),
> {
    match scope_holding(scopes, i, name) {
        Some(j) => Some((j, name)),
        None => candidate_holder(scopes, i, names, 0),
    }
}

/// Entries `a` are entries `b` with `name` bound to `value`.
pub open spec fn entry_put(b: Seq<(String, Value)>, a: Seq<(String, Value)>, name: Seq<char>, value: Value) -> bool {
    &&& entry_value(a, name) == Some(value)
    &&& forall|other: Seq<char>| other != name ==> entry_value(a, other) == entry_value(b, other)
}

/// What assigning a special variable does: the latest binding of one of
/// the names takes the value, else the global value of the first special
/// name; a constant is left alone and the assignment fails, as does one to
/// a name that is neither bound nor special.
pub open spec fn dynamic_assigned(b: DynamicState, a: DynamicState, names: Seq<Seq<char>>, value: Value, r: bool) -> bool {
    match latest_binding(b.bindings@, names) {
        Some(i) => if texts(b.constants@).contains(b.bindings@[i].0@) {
            !r && a == b
        } else {
            &&& r
            &&& a.bindings@ == b.bindings@.update(i, (b.bindings@[i].0, value))
            &&& a.globals == b.globals
            &&& a.special_names == b.special_names
            &&& a.constants == b.constants
        },
        None => match first_special(b.special_names@, names, 0) {
            Some(c) => if texts(b.constants@).contains(c) {
                !r && a == b
            } else {
                &&& r
                &&& entry_put(b.globals@, a.globals@, c, value)
                &&& a.bindings == b.bindings
                &&& a.special_names == b.special_names
                &&& a.constants == b.constants
            },
            None => !r && a == b,
        },
    }
}

/// What `set_in` does: a variable bound lexically (see `lexical_target`)
/// takes the value there; otherwise the dynamic assignment decides.
pub open spec fn assigned_in(before: Runtime, after: Runtime, name: Seq<char>, value: Value, env: Environment, r: bool) -> bool {
    let names = candidates_of(before.packages, name);
    &&& after.packages == before.packages
    &&& if scope_lookup(before.scopes@, env.scope as int, names) is Some && lexical_target(
        before.scopes@,
        env.scope as int,
        name,
        names,
    ) is Some {
        let target = lexical_target(before.scopes@, env.scope as int, name, names)->0;
        &&& r
        &&& after.dynamic == before.dynamic
        &&& scope_put(before.scopes@, after.scopes@, target.0, target.1, value)
    } else {
        &&& after.scopes == before.scopes
        &&& dynamic_assigned(before.dynamic, after.dynamic, names, value, r)
    }
}

/// Whether a name is constant: one of its candidates is.
pub open spec fn constant_name(d: DynamicState, names: Seq<Seq<char>>) -> bool {
    exists|k: int| 0 <= k < names.len() && #[trigger] texts(d.constants@).contains(names[k])
}

/// Entries `a` are entries `b` without any entry named `name`.
pub open spec fn entry_removed(b: Seq<(String, Value)>, a: Seq<(String, Value)>, name: Seq<char>) -> bool {
    &&& entry_value(a, name) is None
    &&& forall|other: Seq<char>| other != name ==> entry_value(a, other) == entry_value(b, other)
}

/// Drops every entry named `name`.
fn remove_entries(es: &mut Vec<(String, Value)>, name: &String)
    ensures
        entry_removed(old(es)@, final(es)@, name@),
{
    let ghost before = es@;
    let mut kept: Vec<(String, Value)> = Vec::new();
    let mut i: usize = 0;
    while i < es.len()
        invariant
            i <= es.len(),
            es@ == before,
            forall|k: int| 0 <= k < kept.len() ==> kept@[k].0@ != name@,
            forall|other: Seq<char>|
                other != name@ ==> (#[trigger] entry_value(kept@, other) is Some ==> entry_value(kept@, other)
                    == entry_value(before, other)),
            forall|other: Seq<char>|
                other != name@ ==> (#[trigger] entry_value(kept@, other) is None ==> entry_value(before, other)
                    == entry_from(before, other, i as int)),
        decreases es.len() - i,
    {
        if !crate::environment::same_string(&es[i].0, name) {
            let ghost old_kept = kept@;
            let key = es[i].0.clone();
            let v = es[i].1.clone();
            kept.push((key, v));
            proof {
                assert forall|other: Seq<char>| other != name@ implies (#[trigger] entry_value(kept@, other) is Some
                    ==> entry_value(kept@, other) == entry_value(before, other)) by {
                    lemma_entry_after_push(old_kept, kept@, other);
                    if entry_value(old_kept, other) is None && before[i as int].0@ == other {
                        assert(entry_from(before, other, i as int) == Some(before[i as int].1));
                    }
                }
                assert forall|other: Seq<char>| other != name@ implies (#[trigger] entry_value(kept@, other) is None
                    ==> entry_value(before, other) == entry_from(before, other, i + 1)) by {
                    lemma_entry_after_push(old_kept, kept@, other);
                }
            }
        } else {
            proof {
                assert forall|other: Seq<char>| other != name@ implies (#[trigger] entry_value(kept@, other) is None
                    ==> entry_value(before, other) == entry_from(before, other, i + 1)) by {}
            }
        }
        i = i + 1;
    }
    proof {
        lemma_entry_none_without(kept@, name@, 0);
        assert forall|other: Seq<char>| other != name@ implies entry_value(kept@, other) == entry_value(
            before,
            other,
        ) by {
            if entry_value(kept@, other) is None {
                assert(entry_from(before, other, before.len() as int) is None);
            }
        }
    }
    *es = kept;
}

proof fn lemma_entry_none_without(es: Seq<(String, Value)>, name: Seq<char>, k: int)
    requires
        0 <= k,
        forall|j: int| 0 <= j < es.len() ==> es[j].0@ != name,
    ensures
        entry_from(es, name, k) is None,
    decreases es.len() - k,
{
    if k < es.len() {
        lemma_entry_none_without(es, name, k + 1);
    }
}

/// Pushing an entry changes the first entry of its own name at most, and
/// only where there was none.
proof fn lemma_entry_after_push(a: Seq<(String, Value)>, b: Seq<(String, Value)>, name: Seq<char>)
    requires
        b.len() == a.len() + 1,
        forall|j: int| 0 <= j < a.len() ==> a[j] == b[j],
    ensures
        entry_value(a, name) is Some ==> entry_value(b, name) == entry_value(a, name),
        entry_value(a, name) is None ==> entry_value(b, name) == if b[a.len() as int].0@ == name {
            Some(b[a.len() as int].1)
        } else {
            None::<Value>
        },
{
    lemma_entry_prefix(a, b, name, 0);
}

proof fn lemma_entry_prefix(a: Seq<(String, Value)>, b: Seq<(String, Value)>, name: Seq<char>, k: int)
    requires
        0 <= k,
        b.len() == a.len() + 1,
        forall|j: int| 0 <= j < a.len() ==> a[j] == b[j],
    ensures
        entry_from(a, name, k) is Some ==> entry_from(b, name, k) == entry_from(a, name, k),
        entry_from(a, name, k) is None && k <= a.len() ==> entry_from(b, name, k) == if b[a.len() as int].0@ == name {
            Some(b[a.len() as int].1)
        } else {
            None::<Value>
        },
    decreases b.len() - k,
{
    if k < b.len() {
        lemma_entry_prefix(a, b, name, k + 1);
    }
}

/// The first candidate bound in some scope from `i` outwards.
fn find_candidate_holder(scopes: &Vec<Scope>, i: usize, names: &Vec<String>) -> (r: Option<(usize, usize)>)
    requires
        scopes_well_formed(scopes@),
        i < scopes.len(),
    ensures
        match candidate_holder(scopes@, i as int, texts(names@), 0) {
            Some(t) => r matches Some(p) && p.0 == t.0 && p.1 < names.len() && names@[p.1 as int]@ == t.1
                && p.0 < scopes.len(),
            None => r is None,
        },
{
    let ghost c = texts(names@);
    let mut k: usize = 0;
    while k < names.len()
        invariant
            k <= names.len(),
            scopes_well_formed(scopes@),
            i < scopes.len(),
            c == texts(names@),
            candidate_holder(scopes@, i as int, c, 0) == candidate_holder(scopes@, i as int, c, k as int),
        decreases names.len() - k,
    {
        match find_holding_scope(scopes, i, &names[k]) {
            Some(j) => {
                return Some((j, k));
            },
            None => {},
        }
        k = k + 1;
    }
    None
}

impl Runtime {
    /// Assigns a variable from an environment (see `assigned_in`); false
    /// when nothing could be assigned.
    pub fn set_in(&mut self, name: &str, value: Value, environment: &Environment) -> (r: bool)
        requires
            old(self).well_formed(),
            old(self).holds_scope(*environment),
        ensures
            final(self).well_formed(),
            assigned_in(*old(self), *final(self), name@, value, *environment, r),
    {
        let candidates = self.dynamic_candidates(name);
        if find_in_scopes(&self.scopes, environment.scope, &candidates).is_some() {
            let raw = owned(name);
            match find_holding_scope(&self.scopes, environment.scope, &raw) {
                Some(j) => {
                    put_in_scope(&mut self.scopes, j, &raw, value);
                    return true;
                },
                None => {},
            }
            match find_candidate_holder(&self.scopes, environment.scope, &candidates) {
                Some((j, k)) => {
                    let holder = candidates[k].clone();
                    put_in_scope(&mut self.scopes, j, &holder, value);
                    return true;
                },
                None => {},
            }
        }
        match find_latest_binding(&self.dynamic.bindings, &candidates) {
            Some(i) => {
                if holds_name(&self.dynamic.constants, &self.dynamic.bindings[i].0) {
                    return false;
                }
                let key = self.dynamic.bindings[i].0.clone();
                self.dynamic.bindings.set(i, (key, value));
                return true;
            },
            None => {},
        }
        match find_first_special(&self.dynamic.special_names, &candidates) {
            Some(c) => {
                if holds_name(&self.dynamic.constants, &c) {
                    return false;
                }
                put_entry(&mut self.dynamic.globals, &c, value);
                true
            },
            None => false,
        }
    }

    /// Declares a special variable: the name becomes special, and gets
    /// `value` unless it has a global value and `force` is false. Returns
    /// the variable's global value.
    pub fn define_special_value(&mut self, name: &str, value: Value, force: bool) -> (r: Value)
        ensures
            ({
                let n = normalize(name@);
                &&& texts(final(self).dynamic.special_names@).contains(n)
                &&& forall|other: Seq<char>|
                    other != n ==> (texts(final(self).dynamic.special_names@).contains(other) <==> texts(
                        old(self).dynamic.special_names@,
                    ).contains(other))
                &&& if !force && entry_value(old(self).dynamic.globals@, n) is Some {
                    &&& r == entry_value(old(self).dynamic.globals@, n)->0
                    &&& final(self).dynamic.globals == old(self).dynamic.globals
                } else {
                    &&& r == value
                    &&& entry_put(old(self).dynamic.globals@, final(self).dynamic.globals@, n, value)
                }
            }),
            final(self).packages == old(self).packages,
            final(self).scopes == old(self).scopes,
            final(self).dynamic.bindings == old(self).dynamic.bindings,
            final(self).dynamic.constants == old(self).dynamic.constants,
    {
        let n = normalize_name(name);
        crate::environment::insert_name(&mut self.dynamic.special_names, &n);
        if !force {
            match crate::environment::find_entry(&self.dynamic.globals, &n) {
                Some(k) => {
                    return self.dynamic.globals[k].1.clone();
                },
                None => {},
            }
        }
        put_entry(&mut self.dynamic.globals, &n, value.clone());
        value
    }

    /// Declares a special variable under its exact name (see
    /// `define_special_value`).
    pub fn define_special_value_exact(&mut self, name: &str, value: Value, force: bool) -> (r: Value)
        ensures
            texts(final(self).dynamic.exact_special_names@).contains(name@),
            forall|other: Seq<char>|
                other != name@ ==> (texts(final(self).dynamic.exact_special_names@).contains(other) <==> texts(
                    old(self).dynamic.exact_special_names@,
                ).contains(other)),
            if !force && entry_value(old(self).dynamic.exact_globals@, name@) is Some {
                &&& r == entry_value(old(self).dynamic.exact_globals@, name@)->0
                &&& final(self).dynamic.exact_globals == old(self).dynamic.exact_globals
            } else {
                &&& r == value
                &&& entry_put(old(self).dynamic.exact_globals@, final(self).dynamic.exact_globals@, name@, value)
            },
            final(self).packages == old(self).packages,
            final(self).scopes == old(self).scopes,
            final(self).dynamic.exact_bindings == old(self).dynamic.exact_bindings,
            final(self).dynamic.exact_constants == old(self).dynamic.exact_constants,
    {
        let n = owned(name);
        crate::environment::insert_name(&mut self.dynamic.exact_special_names, &n);
        if !force {
            match crate::environment::find_entry(&self.dynamic.exact_globals, &n) {
                Some(k) => {
                    return self.dynamic.exact_globals[k].1.clone();
                },
                None => {},
            }
        }
        put_entry(&mut self.dynamic.exact_globals, &n, value.clone());
        value
    }

    /// Declares a constant: special, constant, with `value` as its global
    /// value. Returns the value.
    pub fn define_constant_value(&mut self, name: &str, value: Value) -> (r: Value)
        ensures
            r == value,
            texts(final(self).dynamic.special_names@).contains(normalize(name@)),
            texts(final(self).dynamic.constants@).contains(normalize(name@)),
            entry_put(old(self).dynamic.globals@, final(self).dynamic.globals@, normalize(name@), value),
            forall|other: Seq<char>|
                other != normalize(name@) ==> (texts(final(self).dynamic.constants@).contains(other) <==> texts(
                    old(self).dynamic.constants@,
                ).contains(other)),
            final(self).packages == old(self).packages,
            final(self).scopes == old(self).scopes,
            final(self).dynamic.bindings == old(self).dynamic.bindings,
    {
        let n = normalize_name(name);
        crate::environment::insert_name(&mut self.dynamic.special_names, &n);
        crate::environment::insert_name(&mut self.dynamic.constants, &n);
        put_entry(&mut self.dynamic.globals, &n, value.clone());
        value
    }

    /// Declares a constant under its exact name.
    pub fn define_constant_value_exact(&mut self, name: &str, value: Value) -> (r: Value)
        ensures
            r == value,
            texts(final(self).dynamic.exact_special_names@).contains(name@),
            texts(final(self).dynamic.exact_constants@).contains(name@),
            entry_put(old(self).dynamic.exact_globals@, final(self).dynamic.exact_globals@, name@, value),
            final(self).packages == old(self).packages,
            final(self).scopes == old(self).scopes,
            final(self).dynamic.exact_bindings == old(self).dynamic.exact_bindings,
    {
        let n = owned(name);
        crate::environment::insert_name(&mut self.dynamic.exact_special_names, &n);
        crate::environment::insert_name(&mut self.dynamic.exact_constants, &n);
        put_entry(&mut self.dynamic.exact_globals, &n, value.clone());
        value
    }

    /// The global value of a special variable held under its exact name.
    pub fn lookup_special_exact(&self, name: &str) -> (r: Option<Value>)
        ensures
            r == entry_value(self.dynamic.exact_globals@, name@),
    {
        let n = owned(name);
        match crate::environment::find_entry(&self.dynamic.exact_globals, &n) {
            Some(k) => Some(self.dynamic.exact_globals[k].1.clone()),
            None => None,
        }
    }

    /// The value of a symbol held under its exact name: its latest exact
    /// binding, else its exact global value; the unbound marker reads as
    /// nothing.
    pub fn lookup_symbol_value_exact(&self, name: &str) -> (r: Option<Value>)
        ensures
            r == bound_value(
                match last_match(
                    self.dynamic.exact_bindings@.len() as int,
                    |i: int| self.dynamic.exact_bindings@[i].0@ == name@,
                ) {
                    Some(i) => Some(self.dynamic.exact_bindings@[i].1),
                    None => entry_value(self.dynamic.exact_globals@, name@),
                },
            ),
    {
        let bs = &self.dynamic.exact_bindings;
        let n = owned(name);
        let ghost p = |i: int| self.dynamic.exact_bindings@[i].0@ == name@;
        let mut k: usize = bs.len();
        while k > 0
            invariant
                k <= bs.len(),
                n@ == name@,
                bs == &self.dynamic.exact_bindings,
                p == (|i: int| self.dynamic.exact_bindings@[i].0@ == name@),
                last_match(bs.len() as int, p) == last_match(k as int, p),
            decreases k,
        {
            if crate::environment::same_string(&bs[k - 1].0, &n) {
                return bound(Some(bs[k - 1].1.clone()));
            }
            k = k - 1;
        }
        match crate::environment::find_entry(&self.dynamic.exact_globals, &n) {
            Some(i) => bound(Some(self.dynamic.exact_globals[i].1.clone())),
            None => None,
        }
    }

    /// Whether a symbol is a constant.
    pub fn is_constant_in(&self, name: &str) -> (r: bool)
        ensures
            r == constant_name(self.dynamic, candidates_of(self.packages, name@)),
    {
        let candidates = self.dynamic_candidates(name);
        let ghost c = texts(candidates@);
        let mut k: usize = 0;
        while k < candidates.len()
            invariant
                k <= candidates.len(),
                c == texts(candidates@),
                c == candidates_of(self.packages, name@),
                forall|j: int| 0 <= j < k ==> !texts(self.dynamic.constants@).contains(#[trigger] c[j]),
            decreases candidates.len() - k,
        {
            if holds_name(&self.dynamic.constants, &candidates[k]) {
                assert(texts(self.dynamic.constants@).contains(c[k as int]));
                return true;
            }
            k = k + 1;
        }
        false
    }

    /// Whether an exact name is a constant.
    pub fn is_constant_exact_in(&self, name: &str) -> (r: bool)
        ensures
            r == texts(self.dynamic.exact_constants@).contains(name@),
    {
        let n = owned(name);
        holds_name(&self.dynamic.exact_constants, &n)
    }

    /// Removes the global values of every name a symbol may be bound under.
    pub fn makunbound_symbol(&mut self, name: &str)
        ensures
            final(self).packages == old(self).packages,
            final(self).scopes == old(self).scopes,
            final(self).dynamic.bindings == old(self).dynamic.bindings,
            forall|n: Seq<char>|
                candidates_of(old(self).packages, name@).contains(n) ==> entry_value(
                    final(self).dynamic.globals@,
                    n,
                ) is None,
            forall|n: Seq<char>|
                !candidates_of(old(self).packages, name@).contains(n) ==> entry_value(
                    final(self).dynamic.globals@,
                    n,
                ) == entry_value(old(self).dynamic.globals@, n),
    {
        let candidates = self.dynamic_candidates(name);
        let ghost c = texts(candidates@);
        let ghost start = self.dynamic.globals@;
        let mut k: usize = 0;
        while k < candidates.len()
            invariant
                k <= candidates.len(),
                c == texts(candidates@),
                c == candidates_of(self.packages, name@),
                self.packages == old(self).packages,
                self.scopes == old(self).scopes,
                self.dynamic.bindings == old(self).dynamic.bindings,
                start == old(self).dynamic.globals@,
                forall|j: int| 0 <= j < k ==> entry_value(self.dynamic.globals@, #[trigger] c[j]) is None,
                forall|n: Seq<char>|
                    !c.take(k as int).contains(n) ==> entry_value(self.dynamic.globals@, n) == entry_value(start, n),
            decreases candidates.len() - k,
        {
            let ghost before = self.dynamic.globals@;
            remove_entries(&mut self.dynamic.globals, &candidates[k]);
            proof {
                assert forall|n: Seq<char>| !c.take(k + 1).contains(n) implies entry_value(
                    self.dynamic.globals@,
                    n,
                ) == entry_value(start, n) by {
                    assert(n != c[k as int]) by {
                        if n == c[k as int] {
                            assert(c.take(k + 1)[k as int] == n);
                        }
                    }
                    if c.take(k as int).contains(n) {
                        let j = choose|j: int| 0 <= j < c.take(k as int).len() && c.take(k as int)[j] == n;
                        assert(c.take(k + 1)[j] == n);
                    }
                }
            }
            k = k + 1;
        }
        proof {
            assert(c.take(candidates.len() as int) =~= c);
            assert forall|n: Seq<char>| c.contains(n) implies entry_value(self.dynamic.globals@, n) is None by {
                let j = choose|j: int| 0 <= j < c.len() && c[j] == n;
                assert(entry_value(self.dynamic.globals@, c[j]) is None);
            }
        }
    }

    /// Removes the exact global value of a name.
    pub fn makunbound_exact_symbol(&mut self, name: &str)
        ensures
            entry_removed(old(self).dynamic.exact_globals@, final(self).dynamic.exact_globals@, name@),
            final(self).packages == old(self).packages,
            final(self).scopes == old(self).scopes,
            final(self).dynamic.globals == old(self).dynamic.globals,
    {
        let n = owned(name);
        remove_entries(&mut self.dynamic.exact_globals, &n);
    }

    /// A scope inside `parent`: a fresh environment for local bindings.
    pub fn child_environment(&mut self, parent: &Environment) -> (r: Environment)
        requires
            old(self).well_formed(),
            old(self).holds_scope(*parent),
        ensures
            final(self).well_formed(),
            final(self).holds_scope(r),
            final(self).holds_scope(*parent),
            final(self).scopes@ == old(self).scopes@.push(final(self).scopes@.last()),
            final(self).scopes@.last().parent == Some(parent.scope),
            final(self).scopes@.last().variables@.len() == 0,
            final(self).scopes@.last().specials@.len() == 0,
            r.scope == old(self).scopes@.len(),
            final(self).packages == old(self).packages,
            final(self).dynamic == old(self).dynamic,
    {
        let index = self.scopes.len();
        self.scopes.push(Scope { parent: Some(parent.scope), variables: Vec::new(), specials: Vec::new() });
        Environment { scope: index }
    }

    /// The restarts in force, the most recent last.
    pub fn restart_bindings(&self) -> (r: Vec<RestartBinding>)
        ensures
            r@ == self.dynamic.restart_bindings@,
    {
        let bs = &self.dynamic.restart_bindings;
        let mut out: Vec<RestartBinding> = Vec::new();
        let mut k: usize = 0;
        while k < bs.len()
            invariant
                k <= bs.len(),
                out@ == bs@.take(k as int),
            decreases bs.len() - k,
        {
            out.push(bs[k].clone());
            proof {
                assert(bs@.take(k + 1) =~= bs@.take(k as int).push(bs@[k as int]));
            }
            k = k + 1;
        }
        proof {
            assert(bs@.take(bs.len() as int) =~= bs@);
        }
        out
    }

    /// Establishes restarts; returns the depth to unwind to when they go
    /// out of scope.
    pub fn bind_restarts(&mut self, bindings: Vec<RestartBinding>) -> (r: usize)
        ensures
            r == old(self).dynamic.restart_bindings@.len(),
            final(self).dynamic.restart_bindings@ == old(self).dynamic.restart_bindings@ + bindings@,
            final(self).packages == old(self).packages,
            final(self).scopes == old(self).scopes,
            final(self).dynamic.bindings == old(self).dynamic.bindings,
            final(self).dynamic.globals == old(self).dynamic.globals,
    {
        let depth = self.dynamic.restart_bindings.len();
        let mut k: usize = 0;
        let ghost start = self.dynamic.restart_bindings@;
        while k < bindings.len()
            invariant
                k <= bindings.len(),
                self.dynamic.restart_bindings@ == start + bindings@.take(k as int),
                self.packages == old(self).packages,
                self.scopes == old(self).scopes,
                self.dynamic.bindings == old(self).dynamic.bindings,
                self.dynamic.globals == old(self).dynamic.globals,
            decreases bindings.len() - k,
        {
            self.dynamic.restart_bindings.push(bindings[k].clone());
            proof {
                assert(bindings@.take(k + 1) =~= bindings@.take(k as int).push(bindings@[k as int]));
                assert(start + bindings@.take(k + 1) =~= (start + bindings@.take(k as int)).push(bindings@[k as int]));
            }
            k = k + 1;
        }
        proof {
            assert(bindings@.take(bindings.len() as int) =~= bindings@);
        }
        depth
    }

    /// Drops the restarts established since `depth`.
    pub fn unwind_restarts(&mut self, depth: usize)
        ensures
            depth <= old(self).dynamic.restart_bindings@.len() ==> final(self).dynamic.restart_bindings@
                == old(self).dynamic.restart_bindings@.take(depth as int),
            depth > old(self).dynamic.restart_bindings@.len() ==> final(self).dynamic.restart_bindings@
                == old(self).dynamic.restart_bindings@,
            final(self).packages == old(self).packages,
            final(self).scopes == old(self).scopes,
            final(self).dynamic.bindings == old(self).dynamic.bindings,
            final(self).dynamic.globals == old(self).dynamic.globals,
    {
        self.dynamic.restart_bindings.truncate(depth);
    }
}

/// Whether a name is `T` or `NIL`, in any case.
pub open spec fn truth_name(n: Seq<char>) -> bool {
    upcase_seq(n) == upcase_seq("T"@) || upcase_seq(n) == upcase_seq("NIL"@)
}

/// Whether a value is a constant form: self-evaluating data, `T`, `NIL`,
/// keywords, and symbols declared constant.
pub open spec fn constant_value(rt: Runtime, v: Value) -> bool {
    match v {
        Value::Nil => true,
        Value::Boolean(_) => true,
        Value::Integer(_) => true,
        Value::Rational { .. } => true,
        Value::Float(_) => true,
        Value::String(_) => true,
        Value::Character(_) => true,
        Value::Keyword(_) => true,
        Value::KeywordExact(_) => true,
        Value::Symbol(n) => truth_name(n@) || constant_name(rt.dynamic, candidates_of(rt.packages, n@)),
        Value::SymbolExact(n) => truth_name(n@) || texts(rt.dynamic.exact_constants@).contains(n@),
        _ => false,
    }
}

/// The error for an attempt to change a constant: `cannot modify constant NAME`.
pub open spec fn is_constant_modification(e: RuntimeError, name: Seq<char>, span: Span) -> bool {
    is_invalid(e, "cannot modify constant "@ + name, span)
}

impl Runtime {
    /// Whether a value is a constant form (see `constant_value`).
    pub fn constantp(&self, value: &Value) -> (r: bool)
        ensures
            r == constant_value(*self, *value),
    {
        match value {
            Value::Nil => true,
            Value::Boolean(_) => true,
            Value::Integer(_) => true,
            Value::Rational { .. } => true,
            Value::Float(_) => true,
            Value::String(_) => true,
            Value::Character(_) => true,
            Value::Keyword(_) => true,
            Value::KeywordExact(_) => true,
            Value::Symbol(name) => {
                let cs = chars_of(name.as_str());
                same_ignoring_case(&cs, "T") || same_ignoring_case(&cs, "NIL") || self.is_constant_in(name.as_str())
            },
            Value::SymbolExact(name) => {
                let cs = chars_of(name.as_str());
                same_ignoring_case(&cs, "T") || same_ignoring_case(&cs, "NIL") || self.is_constant_exact_in(
                    name.as_str(),
                )
            },
            _ => false,
        }
    }

    /// The error for an attempt to change the constant `name`.
    pub fn constant_modification_error(name: &str, span: Span) -> (r: RuntimeError)
        ensures
            is_constant_modification(r, name@, span),
    {
        let n = chars_of(name);
        RuntimeError::InvalidForm { message: message_with("cannot modify constant ", &n), span: Some(span) }
    }
}

/// Unwinding to the depth taken before some bindings were pushed brings
/// the binding stack back to what it was.
pub proof fn lemma_unwind_restores(before: Seq<(String, Value)>, pushed: Seq<(String, Value)>, after: Seq<(String, Value)>)
    requires
        pushed.len() >= before.len(),
        pushed.take(before.len() as int) == before,
        after == pushed.take(before.len() as int),
    ensures
        after == before,
{
}

/// A constant keeps its value: once `name` is special and constant, an
/// assignment to it that no lexical or dynamic binding captures fails and
/// changes nothing.
pub proof fn lemma_constant_stays(before: Runtime, after: Runtime, name: Seq<char>, value: Value, env: Environment, r: bool)
    requires
        !uninterned_spelling(name),
        first_candidate(before.packages, name) == normalize(name),
        texts(before.dynamic.special_names@).contains(normalize(name)),
        texts(before.dynamic.constants@).contains(normalize(name)),
        scope_lookup(before.scopes@, env.scope as int, candidates_of(before.packages, name)) is None,
        latest_binding(before.dynamic.bindings@, candidates_of(before.packages, name)) is None,
        assigned_in(before, after, name, value, env, r),
    ensures
        !r,
        after.dynamic == before.dynamic,
        after.scopes == before.scopes,
{
    lemma_candidates_start(before.packages, name);
}

} // verus!
