//! The package registry: packages, their nicknames, used packages, exported
//! and present symbols, shadows and imports, and the current package.
use vstd::prelude::*;
use crate::names::{qualified, COMMON_LISP_PACKAGE, KEYWORD_PACKAGE, USER_PACKAGE};
use crate::text::{chars_of, owned, string_from};

verus! {

broadcast use vstd::std_specs::vec::group_vec_axioms;

/// One package.
pub struct PackageRecord {
    pub name: String,
    pub nicknames: Vec<String>,
    pub uses: Vec<String>,
    pub exports: Vec<String>,
    /// Names of the symbols present in the package (interned or imported).
    pub symbols: Vec<String>,
    pub shadows: Vec<String>,
    /// Imported symbols: the name, and the package it comes from.
    pub imports: Vec<(String, String)>,
    pub documentation: Option<String>,
    pub local_nicknames: Vec<(String, String)>,
}

/// All packages of a runtime, and the current one.
pub struct PackageRegistry {
    pub packages: Vec<PackageRecord>,
    pub current: String,
}

/// Whether a list of strings holds a name.
pub open spec fn lists(v: Seq<String>, name: Seq<char>) -> bool {
    exists|i: int| 0 <= i < v.len() && v[i]@ == name
}

/// Whether a package record goes by a name (its own or a nickname).
pub open spec fn goes_by(p: PackageRecord, name: Seq<char>) -> bool {
    p.name@ == name || lists(p.nicknames@, name)
}

/// The position of the first package that goes by a name.
pub open spec fn package_index(ps: Seq<PackageRecord>, name: Seq<char>) -> Option<int> {
    if exists|i: int| 0 <= i < ps.len() && goes_by(ps[i], name) {
        Some(choose|i: int| 0 <= i < ps.len() && goes_by(ps[i], name) && forall|j: int| 0 <= j < i ==> !goes_by(#[trigger] ps[j], name))
    } else {
        None
    }
}

pub proof fn lemma_package_index(ps: Seq<PackageRecord>, name: Seq<char>, i: int)
    requires
        0 <= i < ps.len(),
        goes_by(ps[i], name),
        forall|j: int| 0 <= j < i ==> !goes_by(#[trigger] ps[j], name),
    ensures
        package_index(ps, name) == Some(i),
{
    let w = choose|w: int| 0 <= w < ps.len() && goes_by(ps[w], name) && forall|j: int| 0 <= j < w ==> !goes_by(#[trigger] ps[j], name);
    assert(0 <= w < ps.len() && goes_by(ps[w], name) && forall|j: int| 0 <= j < w ==> !goes_by(#[trigger] ps[j], name));
    if w < i {
        assert(!goes_by(ps[w], name));
    }
    if i < w {
        assert(!goes_by(ps[i], name));
    }
}

/// Whether a list of strings holds a name.
pub fn list_has(v: &Vec<String>, name: &str) -> (r: bool)
    ensures
        r == lists(v@, name@),
{
    let mut i: usize = 0;
    while i < v.len()
        invariant
            i <= v.len(),
            forall|k: int| 0 <= k < i ==> v@[k]@ != name@,
        decreases v.len() - i,
    {
        if same(v[i].as_str(), name) {
            return true;
        }
        i = i + 1;
    }
    false
}

fn same(a: &str, b: &str) -> (r: bool)
    ensures
        r == (a@ == b@),
{
    let x = chars_of(a);
    let y = chars_of(b);
    crate::text::same_text(&x, &y)
}

fn record(name: &str, uses: Vec<String>) -> (r: PackageRecord)
    ensures
        r.name@ == name@,
        r.nicknames@.len() == 0,
        r.uses@ == uses@,
        r.exports@.len() == 0,
        r.symbols@.len() == 0,
        r.shadows@.len() == 0,
        r.imports@.len() == 0,
        r.local_nicknames@.len() == 0,
{
    PackageRecord {
        name: owned(name),
        nicknames: Vec::new(),
        uses,
        exports: Vec::new(),
        symbols: Vec::new(),
        shadows: Vec::new(),
        imports: Vec::new(),
        documentation: None,
        local_nicknames: Vec::new(),
    }
}

/// The standard packages: `COMMON-LISP`, `KEYWORD`, and `NCL-USER` (which
/// uses `COMMON-LISP` and is current), none with nicknames or symbols yet.
pub open spec fn standard_registry(r: PackageRegistry) -> bool {
    &&& r.packages@.len() == 3
    &&& r.packages@[0].name@ == COMMON_LISP_PACKAGE@
    &&& r.packages@[1].name@ == KEYWORD_PACKAGE@
    &&& r.packages@[2].name@ == USER_PACKAGE@
    &&& r.packages@[2].uses@.len() == 1 && r.packages@[2].uses@[0]@ == COMMON_LISP_PACKAGE@
    &&& forall|i: int| 0 <= i < 3 ==> (#[trigger] r.packages@[i]).nicknames@.len() == 0
        && r.packages@[i].symbols@.len() == 0 && r.packages@[i].exports@.len() == 0
        && r.packages@[i].imports@.len() == 0
    &&& r.current@ == USER_PACKAGE@
}

impl PackageRegistry {
    /// The standard packages (see `standard_registry`).
    pub fn new() -> (r: PackageRegistry)
        ensures
            standard_registry(r),
    {
        let mut packages: Vec<PackageRecord> = Vec::new();
        packages.push(record(COMMON_LISP_PACKAGE, Vec::new()));
        packages.push(record(KEYWORD_PACKAGE, Vec::new()));
        let mut uses: Vec<String> = Vec::new();
        uses.push(owned(COMMON_LISP_PACKAGE));
        packages.push(record(USER_PACKAGE, uses));
        PackageRegistry { packages, current: owned(USER_PACKAGE) }
    }

    /// The position of the package that goes by a name (see `package_index`).
    pub fn find(&self, name: &str) -> (r: Option<usize>)
        ensures
            match r {
                Some(i) => package_index(self.packages@, name@) == Some(i as int) && i < self.packages@.len(),
                None => package_index(self.packages@, name@) is None,
            },
    {
        let mut i: usize = 0;
        while i < self.packages.len()
            invariant
                i <= self.packages@.len(),
                forall|j: int| 0 <= j < i ==> !goes_by(#[trigger] self.packages@[j], name@),
            decreases self.packages.len() - i,
        {
            let p = &self.packages[i];
            if same(p.name.as_str(), name) || list_has(&p.nicknames, name) {
                proof {
                    lemma_package_index(self.packages@, name@, i as int);
                }
                return Some(i);
            }
            i = i + 1;
        }
        None
    }

    /// Whether a package goes by a name.
    pub fn package_exists(&self, name: &str) -> (r: bool)
        ensures
            r == (package_index(self.packages@, name@) is Some),
    {
        self.find(name).is_some()
    }

    /// The name of the package a name designates; an unknown name stands for
    /// itself.
    pub fn canonical_package_name(&self, name: &str) -> (r: String)
        ensures
            match package_index(self.packages@, name@) {
                Some(i) => r@ == self.packages@[i].name@,
                None => r@ == name@,
            },
    {
        match self.find(name) {
            Some(i) => self.packages[i].name.clone(),
            None => owned(name),
        }
    }

    /// Whether a symbol is accessible by name in a package: every keyword
    /// exists; elsewhere the symbol must be present or exported.
    pub fn symbol_exists(&self, package: &str, symbol: &str) -> (r: bool)
        ensures
            r == match package_index(self.packages@, package@) {
                None => false,
                Some(i) => self.packages@[i].name@ == KEYWORD_PACKAGE@ || lists(
                    self.packages@[i].symbols@,
                    symbol@,
                ) || lists(self.packages@[i].exports@, symbol@),
            },
    {
        match self.find(package) {
            None => false,
            Some(i) => {
                let p = &self.packages[i];
                same(p.name.as_str(), KEYWORD_PACKAGE) || list_has(&p.symbols, symbol) || list_has(
                    &p.exports,
                    symbol,
                )
            },
        }
    }

    /// The name of the current package.
    pub fn current_package(&self) -> (r: String)
        ensures
            r@ == self.current@,
    {
        self.current.clone()
    }

    /// Makes a package current.
    pub fn set_current(&mut self, name: &str)
        ensures
            final(self).current@ == name@,
            final(self).packages == old(self).packages,
    {
        self.current = owned(name);
    }

    /// The name under which a package's symbol is known to the evaluator:
    /// an imported symbol by its home package, a symbol of `COMMON-LISP` or
    /// of the user package by its bare name, any other by `PACKAGE::NAME`.
    pub fn imported_symbol_name(&self, package: &str, symbol: &str) -> (r: String)
        ensures
            r@ == imported_name(self.packages@, package@, symbol@),
    {
        match self.find(package) {
            Some(i) => {
                let p = &self.packages[i];
                match import_home(&p.imports, symbol) {
                    Some(home) => crate::names::canonical_symbol_name(home.as_str(), symbol),
                    None => {
                        if same(p.name.as_str(), COMMON_LISP_PACKAGE) || same(p.name.as_str(), USER_PACKAGE) {
                            owned(symbol)
                        } else {
                            crate::names::canonical_symbol_name(p.name.as_str(), symbol)
                        }
                    },
                }
            },
            None => crate::names::canonical_symbol_name(package, symbol),
        }
    }
}

/// The home package of an imported symbol.
pub open spec fn home_of(imports: Seq<(String, String)>, symbol: Seq<char>) -> Option<Seq<char>> {
    if exists|i: int| 0 <= i < imports.len() && imports[i].0@ == symbol {
        Some(imports[choose|i: int| 0 <= i < imports.len() && imports[i].0@ == symbol && forall|j: int| 0 <= j < i ==> #[trigger] imports[j].0@ != symbol].1@)
    } else {
        None
    }
}

/// See `PackageRegistry::imported_symbol_name`.
pub open spec fn imported_name(ps: Seq<PackageRecord>, package: Seq<char>, symbol: Seq<char>) -> Seq<char> {
    match package_index(ps, package) {
        Some(i) => match home_of(ps[i].imports@, symbol) {
            Some(h) => qualified(h, symbol),
            None => if ps[i].name@ == COMMON_LISP_PACKAGE@ || ps[i].name@ == USER_PACKAGE@ {
                symbol
            } else {
                qualified(ps[i].name@, symbol)
            },
        },
        None => qualified(package, symbol),
    }
}

pub fn import_home(imports: &Vec<(String, String)>, symbol: &str) -> (r: Option<String>)
    ensures
        match r {
            Some(h) => home_of(imports@, symbol@) == Some(h@),
            None => home_of(imports@, symbol@) is None,
        },
{
    let mut i: usize = 0;
    while i < imports.len()
        invariant
            i <= imports@.len(),
            forall|j: int| 0 <= j < i ==> #[trigger] imports@[j].0@ != symbol@,
        decreases imports.len() - i,
    {
        if same(imports[i].0.as_str(), symbol) {
            proof {
                let w = choose|w: int| 0 <= w < imports@.len() && imports@[w].0@ == symbol@ && forall|j: int| 0 <= j < w ==> #[trigger] imports@[j].0@ != symbol@;
                assert(0 <= w < imports@.len() && imports@[w].0@ == symbol@ && forall|j: int| 0 <= j < w ==> #[trigger] imports@[j].0@ != symbol@);
                if (w as int) < (i as int) {
                    assert(imports@[w].0@ != symbol@);
                }
                if (i as int) < (w as int) {
                    assert(imports@[i as int].0@ != symbol@);
                }
            }
            return Some(imports[i].1.clone());
        }
        i = i + 1;
    }
    None
}

} // verus!
