//! Changing the package registry: defining a package, shadowing, interning
//! and importing symbols, and the `DEFPACKAGE` and `IN-PACKAGE` forms that
//! use them. The registry is modelled as a sequence of package views.
use vstd::prelude::*;
use crate::environment::{holds_name, same_string, texts};
use crate::package::{goes_by, home_of, lemma_package_index, import_home, lists, package_index, PackageRecord, PackageRegistry};
use crate::defpackage::{defpackage_outcome, operation_is, spec_is, DefpackageModel, DefpackageOperation, DefpackageSpec, OperationModel};
use crate::error::{arity, is_arity_error, operands, is_package_error, package_error, reports, RuntimeError};
use crate::packages::{message_with, package_form_outcome, spells};
use crate::runtime::Runtime;
use crate::syntax::{Form, Span};
use crate::value::Value;
use crate::names::KEYWORD_PACKAGE;
use crate::text::{chars_of, join_text, owned, string_from};

verus! {

/// What a package is: its name, nicknames, used packages, exported,
/// present and shadowing symbol names, imports (symbol, home package),
/// documentation and local nicknames.
pub struct PackageView {
    pub name: Seq<char>,
    pub nicknames: Seq<Seq<char>>,
    pub uses: Seq<Seq<char>>,
    pub exports: Seq<Seq<char>>,
    pub symbols: Seq<Seq<char>>,
    pub shadows: Seq<Seq<char>>,
    pub imports: Seq<(Seq<char>, Seq<char>)>,
    pub documentation: Option<Seq<char>>,
    pub local_nicknames: Seq<(Seq<char>, Seq<char>)>,
}

/// The texts of a list of string pairs.
pub open spec fn pair_texts(v: Seq<(String, String)>) -> Seq<(Seq<char>, Seq<char>)> {
    Seq::new(v.len(), |i: int| (v[i].0@, v[i].1@))
}

/// The text of an optional string.
pub open spec fn option_text(o: Option<String>) -> Option<Seq<char>> {
    match o {
        Some(s) => Some(s@),
        None => None,
    }
}

/// What a package record is.
pub open spec fn record_view(p: PackageRecord) -> PackageView {
    PackageView {
        name: p.name@,
        nicknames: texts(p.nicknames@),
        uses: texts(p.uses@),
        exports: texts(p.exports@),
        symbols: texts(p.symbols@),
        shadows: texts(p.shadows@),
        imports: pair_texts(p.imports@),
        documentation: option_text(p.documentation),
        local_nicknames: pair_texts(p.local_nicknames@),
    }
}

/// What the packages of a registry are.
pub open spec fn registry_view(ps: Seq<PackageRecord>) -> Seq<PackageView> {
    Seq::new(ps.len(), |i: int| record_view(ps[i]))
}

/// Whether a package goes by a name: its own or a nickname.
pub open spec fn view_goes_by(p: PackageView, name: Seq<char>) -> bool {
    p.name == name || p.nicknames.contains(name)
}

/// The position of the first package that goes by a name.
pub open spec fn view_index(vs: Seq<PackageView>, name: Seq<char>) -> Option<int> {
    if exists|i: int| 0 <= i < vs.len() && view_goes_by(vs[i], name) {
        Some(
            choose|i: int|
                0 <= i < vs.len() && view_goes_by(vs[i], name) && forall|j: int|
                    0 <= j < i ==> !view_goes_by(#[trigger] vs[j], name),
        )
    } else {
        None
    }
}

proof fn lemma_view_index_first(vs: Seq<PackageView>, name: Seq<char>, i: int)
    requires
        0 <= i < vs.len(),
        view_goes_by(vs[i], name),
        forall|j: int| 0 <= j < i ==> !view_goes_by(#[trigger] vs[j], name),
    ensures
        view_index(vs, name) == Some(i),
{
    let w = choose|w: int|
        0 <= w < vs.len() && view_goes_by(vs[w], name) && forall|j: int| 0 <= j < w ==> !view_goes_by(#[trigger] vs[j], name);
    assert(0 <= w < vs.len() && view_goes_by(vs[w], name) && forall|j: int|
        0 <= j < w ==> !view_goes_by(#[trigger] vs[j], name));
    if w < i {
        assert(!view_goes_by(vs[w], name));
    }
    if i < w {
        assert(!view_goes_by(vs[i], name));
    }
}

/// The first package, below `bound`, that goes by a name.
proof fn first_going_by(ps: Seq<PackageRecord>, name: Seq<char>, bound: int) -> (f: int)
    requires
        bound <= ps.len(),
        exists|i: int| 0 <= i < bound && goes_by(ps[i], name),
    ensures
        0 <= f < bound,
        goes_by(ps[f], name),
        forall|j: int| 0 <= j < f ==> !goes_by(#[trigger] ps[j], name),
    decreases bound,
{
    if exists|i: int| 0 <= i < bound - 1 && goes_by(ps[i], name) {
        first_going_by(ps, name, bound - 1)
    } else {
        bound - 1
    }
}

/// A package index over records is the same over their views.
pub proof fn lemma_view_index(ps: Seq<PackageRecord>, name: Seq<char>)
    ensures
        package_index(ps, name) == view_index(registry_view(ps), name),
{
    let vs = registry_view(ps);
    assert forall|i: int| 0 <= i < ps.len() implies goes_by(ps[i], name) == view_goes_by(#[trigger] vs[i], name) by {
        let t = texts(ps[i].nicknames@);
        if lists(ps[i].nicknames@, name) {
            let k = choose|k: int| 0 <= k < ps[i].nicknames@.len() && ps[i].nicknames@[k]@ == name;
            assert(t[k] == name);
        }
        if t.contains(name) {
            let k = choose|k: int| 0 <= k < t.len() && t[k] == name;
            assert(ps[i].nicknames@[k]@ == name);
        }
    }
    if exists|i: int| 0 <= i < ps.len() && goes_by(ps[i], name) {
        let f = first_going_by(ps, name, ps.len() as int);
        lemma_package_index(ps, name, f);
        assert forall|j: int| 0 <= j < f implies !view_goes_by(#[trigger] vs[j], name) by {
            assert(!goes_by(ps[j], name));
        }
        lemma_view_index_first(vs, name, f);
    } else {
        if exists|i: int| 0 <= i < vs.len() && view_goes_by(vs[i], name) {
            let i = choose|i: int| 0 <= i < vs.len() && view_goes_by(vs[i], name);
            assert(goes_by(ps[i], name));
        }
    }
}

/// `names` with `n` added unless it is there.
pub open spec fn add_name(names: Seq<Seq<char>>, n: Seq<char>) -> Seq<Seq<char>> {
    if names.contains(n) {
        names
    } else {
        names.push(n)
    }
}

/// `names` with each of `more` added in turn.
pub open spec fn add_names(names: Seq<Seq<char>>, more: Seq<Seq<char>>) -> Seq<Seq<char>>
    decreases more.len(),
{
    if more.len() == 0 {
        names
    } else {
        add_name(add_names(names, more.drop_last()), more.last())
    }
}

/// The position of the first import of `symbol`, from `k` on.
pub open spec fn import_index(imports: Seq<(Seq<char>, Seq<char>)>, symbol: Seq<char>, k: int) -> Option<int>
    decreases imports.len() - k,
{
    if k < 0 || k >= imports.len() {
        None
    } else if imports[k].0 == symbol {
        Some(k)
    } else {
        import_index(imports, symbol, k + 1)
    }
}

proof fn lemma_import_index(v: Seq<(Seq<char>, Seq<char>)>, symbol: Seq<char>, k: int)
    requires
        0 <= k,
    ensures
        match import_index(v, symbol, k) {
            Some(m) => k <= m < v.len() && v[m].0 == symbol && forall|j: int| k <= j < m ==> (#[trigger] v[j]).0 != symbol,
            None => forall|j: int| k <= j < v.len() ==> (#[trigger] v[j]).0 != symbol,
        },
    decreases v.len() - k,
{
    if k < v.len() && v[k].0 != symbol {
        lemma_import_index(v, symbol, k + 1);
    }
}

/// The home recorded for an import, over texts.
proof fn lemma_home_of(imports: Seq<(String, String)>, symbol: Seq<char>)
    ensures
        home_of(imports, symbol) == match import_index(pair_texts(imports), symbol, 0) {
            Some(m) => Some(pair_texts(imports)[m].1),
            None => None,
        },
{
    let v = pair_texts(imports);
    lemma_import_index(v, symbol, 0);
    match import_index(v, symbol, 0) {
        Some(m) => {
            assert(imports[m].0@ == symbol);
            assert(forall|j: int| 0 <= j < m ==> #[trigger] imports[j].0@ != symbol) by {
                assert forall|j: int| 0 <= j < m implies #[trigger] imports[j].0@ != symbol by {
                    assert(v[j].0 != symbol);
                }
            }
            let w = choose|w: int|
                0 <= w < imports.len() && imports[w].0@ == symbol && forall|j: int| 0 <= j < w ==> #[trigger] imports[j].0@ != symbol;
            assert(0 <= w < imports.len() && imports[w].0@ == symbol && forall|j: int|
                0 <= j < w ==> #[trigger] imports[j].0@ != symbol);
            if w < m {
                assert(v[w].0 != symbol);
            }
            if m < w {
                assert(imports[m].0@ != symbol);
            }
        },
        None => {
            if exists|i: int| 0 <= i < imports.len() && imports[i].0@ == symbol {
                let i = choose|i: int| 0 <= i < imports.len() && imports[i].0@ == symbol;
                assert(v[i].0 == symbol);
            }
        },
    }
}

/// The home of a symbol as seen from `package`: the home its import
/// records, or the package itself; an unknown package stands for itself.
pub open spec fn view_home(vs: Seq<PackageView>, package: Seq<char>, symbol: Seq<char>) -> Seq<char> {
    match view_index(vs, package) {
        Some(j) => match import_index(vs[j].imports, symbol, 0) {
            Some(k) => vs[j].imports[k].1,
            None => vs[j].name,
        },
        None => package,
    }
}

/// The imports with `symbol` coming from `home`: the first import of it
/// updated, or a new one.
pub open spec fn put_import(imports: Seq<(Seq<char>, Seq<char>)>, symbol: Seq<char>, home: Seq<char>) -> Seq<
    (Seq<char>, Seq<char>),
> {
    match import_index(imports, symbol, 0) {
        Some(i) => imports.update(i, (symbol, home)),
        None => imports.push((symbol, home)),
    }
}

/// A package that shadows `symbol`: it is present and shadowing.
pub open spec fn shadowed_view(p: PackageView, symbol: Seq<char>) -> PackageView {
    PackageView { shadows: add_name(p.shadows, symbol), symbols: add_name(p.symbols, symbol), ..p }
}

/// A package in which `symbol` is present.
pub open spec fn interned_view(p: PackageView, symbol: Seq<char>) -> PackageView {
    PackageView { symbols: add_name(p.symbols, symbol), ..p }
}

/// A package that imports `symbol` from `home`, shadowing with it or not.
pub open spec fn imported_view(p: PackageView, symbol: Seq<char>, home: Seq<char>, shadowing: bool) -> PackageView {
    PackageView {
        imports: put_import(p.imports, symbol, home),
        symbols: add_name(p.symbols, symbol),
        shadows: if shadowing {
            add_name(p.shadows, symbol)
        } else {
            p.shadows
        },
        ..p
    }
}

/// The package `DEFPACKAGE` leaves: an existing package keeps its name,
/// symbols, shadows and imports and takes the new options; a new one has
/// only them. Exported symbols are present.
pub open spec fn defined_view(
    existing: Option<PackageView>,
    name: Seq<char>,
    nicknames: Seq<Seq<char>>,
    uses: Seq<Seq<char>>,
    exports: Seq<Seq<char>>,
    documentation: Option<Seq<char>>,
    local_nicknames: Seq<(Seq<char>, Seq<char>)>,
) -> PackageView {
    match existing {
        Some(p) => PackageView {
            name: p.name,
            nicknames,
            uses,
            exports,
            symbols: add_names(p.symbols, exports),
            shadows: p.shadows,
            imports: p.imports,
            documentation,
            local_nicknames,
        },
        None => PackageView {
            name,
            nicknames,
            uses,
            exports,
            symbols: add_names(Seq::empty(), exports),
            shadows: Seq::empty(),
            imports: Seq::empty(),
            documentation,
            local_nicknames,
        },
    }
}

/// The first nickname, from the `k`-th on, that already designates a
/// package other than `target`.
pub open spec fn nickname_conflict(vs: Seq<PackageView>, target: Option<int>, nicknames: Seq<Seq<char>>, k: int) -> Option<
    Seq<char>,
>
    decreases nicknames.len() - k,
{
    if k < 0 || k >= nicknames.len() {
        None
    } else {
        match view_index(vs, nicknames[k]) {
            Some(j) => if target != Some(j) {
                Some(nicknames[k])
            } else {
                nickname_conflict(vs, target, nicknames, k + 1)
            },
            None => nickname_conflict(vs, target, nicknames, k + 1),
        }
    }
}

/// The packages after `DEFPACKAGE` defined `name` (see `defined_view`).
pub open spec fn defined_registry(
    vs: Seq<PackageView>,
    name: Seq<char>,
    nicknames: Seq<Seq<char>>,
    uses: Seq<Seq<char>>,
    exports: Seq<Seq<char>>,
    documentation: Option<Seq<char>>,
    local_nicknames: Seq<(Seq<char>, Seq<char>)>,
) -> Seq<PackageView> {
    match view_index(vs, name) {
        Some(i) => vs.update(i, defined_view(Some(vs[i]), name, nicknames, uses, exports, documentation, local_nicknames)),
        None => vs.push(defined_view(None, name, nicknames, uses, exports, documentation, local_nicknames)),
    }
}

/// The packages after a symbol operation on the package `target` names;
/// nothing changes for an unknown package.
pub open spec fn operation_view(vs: Seq<PackageView>, target: Seq<char>, op: OperationModel) -> Seq<PackageView> {
    match view_index(vs, target) {
        Some(i) => vs.update(
            i,
            match op {
                OperationModel::Shadow(symbol) => shadowed_view(vs[i], symbol),
                OperationModel::Intern(symbol) => interned_view(vs[i], symbol),
                OperationModel::Import(source, symbol, shadowing) => imported_view(
                    vs[i],
                    symbol,
                    view_home(vs, source, symbol),
                    shadowing,
                ),
            },
        ),
        None => vs,
    }
}

/// The packages after each operation in turn.
pub open spec fn operations_view(vs: Seq<PackageView>, target: Seq<char>, ops: Seq<OperationModel>) -> Seq<PackageView>
    decreases ops.len(),
{
    if ops.len() == 0 {
        vs
    } else {
        operation_view(operations_view(vs, target, ops.drop_last()), target, ops.last())
    }
}

/// What `DEFPACKAGE` makes of the packages once its names are known to
/// exist: the message for a nickname in use, or the new packages.
pub open spec fn defpackage_effect(
    vs: Seq<PackageView>,
    name: Seq<char>,
    nicknames: Seq<Seq<char>>,
    uses: Seq<Seq<char>>,
    exports: Seq<Seq<char>>,
    documentation: Option<Seq<char>>,
    local_nicknames: Seq<(Seq<char>, Seq<char>)>,
    ops: Seq<OperationModel>,
) -> Result<Seq<PackageView>, Seq<char>> {
    match nickname_conflict(vs, view_index(vs, name), nicknames, 0) {
        Some(n) => Err(name_in_use(n)),
        None => Ok(
            operations_view(
                defined_registry(vs, name, nicknames, uses, exports, documentation, local_nicknames),
                name,
                ops,
            ),
        ),
    }
}

/// The name of the package `name` designates; an unknown name stands for
/// itself.
pub open spec fn canonical_in(vs: Seq<PackageView>, name: Seq<char>) -> Seq<char> {
    match view_index(vs, name) {
        Some(i) => vs[i].name,
        None => name,
    }
}

/// Whether a symbol is accessible by name in a package: every keyword
/// is; elsewhere it must be present or exported.
pub open spec fn accessible(vs: Seq<PackageView>, package: Seq<char>, symbol: Seq<char>) -> bool {
    match view_index(vs, package) {
        Some(i) => vs[i].name == KEYWORD_PACKAGE@ || vs[i].symbols.contains(symbol) || vs[i].exports.contains(symbol),
        None => false,
    }
}

/// The first used package, from the `k`-th on, that does not exist.
pub open spec fn missing_use(vs: Seq<PackageView>, uses: Seq<Seq<char>>, k: int) -> Option<Seq<char>>
    decreases uses.len() - k,
{
    if k < 0 || k >= uses.len() {
        None
    } else if view_index(vs, uses[k]) is None {
        Some(uses[k])
    } else {
        missing_use(vs, uses, k + 1)
    }
}

/// The message for the first import, from the `k`-th operation on, whose
/// package or symbol does not exist.
pub open spec fn import_problem(vs: Seq<PackageView>, ops: Seq<OperationModel>, k: int) -> Option<Seq<char>>
    decreases ops.len() - k,
{
    if k < 0 || k >= ops.len() {
        None
    } else {
        match ops[k] {
            OperationModel::Import(source, symbol, _) => if view_index(vs, source) is None {
                Some("unknown package "@ + source)
            } else if !accessible(vs, source, symbol) {
                Some("unknown symbol "@ + source + "::"@ + symbol)
            } else {
                import_problem(vs, ops, k + 1)
            },
            _ => import_problem(vs, ops, k + 1),
        }
    }
}

/// The message `DEFPACKAGE` refuses with before changing anything: a used
/// package, or an imported package or symbol, that does not exist.
pub open spec fn defpackage_problem(vs: Seq<PackageView>, uses: Seq<Seq<char>>, ops: Seq<OperationModel>) -> Option<Seq<char>> {
    match missing_use(vs, uses, 0) {
        Some(n) => Some("unknown package "@ + n),
        None => import_problem(vs, ops, 0),
    }
}

/// The model of a symbol operation.
pub open spec fn operation_model(o: DefpackageOperation) -> OperationModel {
    match o {
        DefpackageOperation::Shadow(s) => OperationModel::Shadow(s@),
        DefpackageOperation::Intern(s) => OperationModel::Intern(s@),
        DefpackageOperation::Import { source_package, source_name, shadowing } => OperationModel::Import(
            source_package@,
            source_name@,
            shadowing,
        ),
    }
}

/// The models of symbol operations.
pub open spec fn operation_models(v: Seq<DefpackageOperation>) -> Seq<OperationModel> {
    Seq::new(v.len(), |i: int| operation_model(v[i]))
}

/// The error for a nickname that names another package.
pub open spec fn name_in_use(n: Seq<char>) -> Seq<char> {
    "package name "@ + n + " is already in use"@
}

/// Adds a name to a list of names unless it is there.
fn add_text(v: &mut Vec<String>, n: &String)
    ensures
        texts(final(v)@) == add_name(texts(old(v)@), n@),
{
    if !holds_name(v, n) {
        let ghost before = v@;
        v.push(n.clone());
        assert(texts(v@) =~= texts(before).push(n@));
    }
}

/// Adds each name of `more` in turn.
fn add_texts(v: &mut Vec<String>, more: &Vec<String>)
    ensures
        texts(final(v)@) == add_names(texts(old(v)@), texts(more@)),
{
    let ghost start = texts(v@);
    let mut i: usize = 0;
    while i < more.len()
        invariant
            i <= more.len(),
            texts(v@) == add_names(start, texts(more@.take(i as int))),
        decreases more.len() - i,
    {
        add_text(v, &more[i]);
        assert(texts(more@.take(i + 1)).drop_last() =~= texts(more@.take(i as int)));
        assert(texts(more@.take(i + 1)).last() == more@[i as int]@);
        i = i + 1;
    }
    assert(more@.take(more.len() as int) =~= more@);
}

/// The first import of `symbol`.
fn find_import(imports: &Vec<(String, String)>, symbol: &String) -> (r: Option<usize>)
    ensures
        match r {
            Some(i) => i < imports.len() && import_index(pair_texts(imports@), symbol@, 0) == Some(i as int),
            None => import_index(pair_texts(imports@), symbol@, 0) is None,
        },
{
    let ghost view = pair_texts(imports@);
    let mut k: usize = 0;
    while k < imports.len()
        invariant
            k <= imports.len(),
            view == pair_texts(imports@),
            import_index(view, symbol@, 0) == import_index(view, symbol@, k as int),
        decreases imports.len() - k,
    {
        if same_string(&imports[k].0, symbol) {
            return Some(k);
        }
        k = k + 1;
    }
    None
}

/// Records that `symbol` comes from `home`.
fn put_import_entry(imports: &mut Vec<(String, String)>, symbol: &String, home: &String)
    ensures
        pair_texts(final(imports)@) == put_import(pair_texts(old(imports)@), symbol@, home@),
{
    let ghost before = pair_texts(imports@);
    match find_import(imports, symbol) {
        Some(i) => {
            imports.set(i, (symbol.clone(), home.clone()));
            assert(pair_texts(imports@) =~= before.update(i as int, (symbol@, home@)));
        },
        None => {
            imports.push((symbol.clone(), home.clone()));
            assert(pair_texts(imports@) =~= before.push((symbol@, home@)));
        },
    }
}

/// The views of a registry whose package `i` became `p`.
proof fn lemma_view_update(ps: Seq<PackageRecord>, qs: Seq<PackageRecord>, i: int)
    requires
        0 <= i < ps.len(),
        qs.len() == ps.len(),
        forall|j: int| 0 <= j < ps.len() && j != i ==> qs[j] == ps[j],
    ensures
        registry_view(qs) == registry_view(ps).update(i, record_view(qs[i])),
{
    assert(registry_view(qs) =~= registry_view(ps).update(i, record_view(qs[i])));
}

/// A package position as an integer.
pub open spec fn position(o: Option<usize>) -> Option<int> {
    match o {
        Some(i) => Some(i as int),
        None => None,
    }
}

/// The message for a name already in use.
fn in_use_message(n: &String) -> (r: String)
    ensures
        r@ == name_in_use(n@),
{
    let a = chars_of("package name ");
    let b = chars_of(n.as_str());
    let c = chars_of(" is already in use");
    string_from(&join_text(&join_text(&a, &b), &c))
}

/// Whether a list of strings holds a name, over texts.
proof fn lemma_lists(v: Seq<String>, name: Seq<char>)
    ensures
        lists(v, name) == texts(v).contains(name),
{
    if lists(v, name) {
        let k = choose|k: int| 0 <= k < v.len() && v[k]@ == name;
        assert(texts(v)[k] == name);
    }
    if texts(v).contains(name) {
        let k = choose|k: int| 0 <= k < texts(v).len() && texts(v)[k] == name;
        assert(v[k]@ == name);
    }
}

impl PackageRegistry {
    /// Makes `symbol` present and shadowing in `package`; nothing for an
    /// unknown package.
    pub fn shadow_symbol(&mut self, package: &str, symbol: &str)
        ensures
            final(self).current == old(self).current,
            registry_view(final(self).packages@) == operation_view(
                registry_view(old(self).packages@),
                package@,
                OperationModel::Shadow(symbol@),
            ),
    {
        proof {
            lemma_view_index(self.packages@, package@);
        }
        match self.find(package) {
            Some(i) => {
                let s = owned(symbol);
                let ghost before = self.packages@;
                let record = &mut self.packages[i];
                add_text(&mut record.shadows, &s);
                add_text(&mut record.symbols, &s);
                proof {
                    lemma_view_update(before, self.packages@, i as int);
                    assert(record_view(self.packages@[i as int]) == shadowed_view(record_view(before[i as int]), symbol@));
                }
            },
            None => {},
        }
    }

    /// Makes `symbol` present in `package`; true when it was not already.
    pub fn intern_symbol(&mut self, package: &str, symbol: &str) -> (r: bool)
        ensures
            final(self).current == old(self).current,
            registry_view(final(self).packages@) == operation_view(
                registry_view(old(self).packages@),
                package@,
                OperationModel::Intern(symbol@),
            ),
            r == match view_index(registry_view(old(self).packages@), package@) {
                Some(i) => !registry_view(old(self).packages@)[i].symbols.contains(symbol@),
                None => false,
            },
    {
        proof {
            lemma_view_index(self.packages@, package@);
        }
        match self.find(package) {
            Some(i) => {
                let s = owned(symbol);
                let present = holds_name(&self.packages[i].symbols, &s);
                let ghost before = self.packages@;
                let record = &mut self.packages[i];
                add_text(&mut record.symbols, &s);
                proof {
                    lemma_view_update(before, self.packages@, i as int);
                    assert(record_view(self.packages@[i as int]) == interned_view(record_view(before[i as int]), symbol@));
                }
                !present
            },
            None => false,
        }
    }

    /// Imports `symbol` of `source` into `target`, shadowing with it or not;
    /// the symbol keeps the home it has in `source`. Nothing changes for an
    /// unknown target.
    pub fn import_symbol(&mut self, source: &str, symbol: &str, target: &str, shadowing: bool)
        ensures
            final(self).current == old(self).current,
            registry_view(final(self).packages@) == operation_view(
                registry_view(old(self).packages@),
                target@,
                OperationModel::Import(source@, symbol@, shadowing),
            ),
    {
        proof {
            lemma_view_index(self.packages@, source@);
            lemma_view_index(self.packages@, target@);
        }
        let ghost vs = registry_view(self.packages@);
        let home = match self.find(source) {
            Some(j) => {
                proof {
                    lemma_home_of(self.packages@[j as int].imports@, symbol@);
                }
                match import_home(&self.packages[j].imports, symbol) {
                    Some(h) => h,
                    None => self.packages[j].name.clone(),
                }
            },
            None => owned(source),
        };
        assert(home@ == view_home(vs, source@, symbol@));
        match self.find(target) {
            Some(i) => {
                let s = owned(symbol);
                let ghost before = self.packages@;
                let record = &mut self.packages[i];
                put_import_entry(&mut record.imports, &s, &home);
                add_text(&mut record.symbols, &s);
                if shadowing {
                    add_text(&mut record.shadows, &s);
                }
                proof {
                    lemma_view_update(before, self.packages@, i as int);
                    assert(record_view(self.packages@[i as int]) == imported_view(
                        record_view(before[i as int]),
                        symbol@,
                        home@,
                        shadowing,
                    ));
                }
            },
            None => {},
        }
    }

    /// The first of `nicknames` that designates a package other than the
    /// one at `target`.
    fn first_conflict(&self, target: Option<usize>, nicknames: &Vec<String>) -> (r: Option<usize>)
        ensures
            match r {
                Some(k) => k < nicknames.len() && nickname_conflict(
                    registry_view(self.packages@),
                    position(target),
                    texts(nicknames@),
                    0,
                ) == Some(nicknames@[k as int]@),
                None => nickname_conflict(registry_view(self.packages@), position(target), texts(nicknames@), 0) is None,
            },
    {
        let ghost ns = texts(nicknames@);
        let ghost vs = registry_view(self.packages@);
        let mut k: usize = 0;
        while k < nicknames.len()
            invariant
                k <= nicknames.len(),
                ns == texts(nicknames@),
                vs == registry_view(self.packages@),
                nickname_conflict(vs, position(target), ns, 0) == nickname_conflict(vs, position(target), ns, k as int),
            decreases nicknames.len() - k,
        {
            proof {
                lemma_view_index(self.packages@, nicknames@[k as int]@);
            }
            match self.find(nicknames[k].as_str()) {
                Some(j) => {
                    let other = match target {
                        Some(t) => t != j,
                        None => true,
                    };
                    if other {
                        return Some(k);
                    }
                },
                None => {},
            }
            k = k + 1;
        }
        None
    }

    /// Defines a package, or redefines the one `name` designates. A nickname
    /// that designates another package is refused, and nothing changes.
    /// Otherwise an existing package keeps its name, present symbols,
    /// shadows and imports and takes the given nicknames, used packages,
    /// exports, documentation and local nicknames; a new package is added
    /// with them. Exported names become present.
    pub fn define_package(
        &mut self,
        name: &str,
        nicknames: Vec<String>,
        uses: Vec<String>,
        exports: Vec<String>,
        documentation: Option<String>,
        local_nicknames: Vec<(String, String)>,
    ) -> (r: Result<(), String>)
        ensures
            final(self).current == old(self).current,
            match nickname_conflict(
                registry_view(old(self).packages@),
                view_index(registry_view(old(self).packages@), name@),
                texts(nicknames@),
                0,
            ) {
                Some(n) => r matches Err(m) && m@ == name_in_use(n) && final(self).packages == old(self).packages,
                None => r is Ok && registry_view(final(self).packages@) == defined_registry(
                    registry_view(old(self).packages@),
                    name@,
                    texts(nicknames@),
                    texts(uses@),
                    texts(exports@),
                    option_text(documentation),
                    pair_texts(local_nicknames@),
                ),
            },
    {
        proof {
            lemma_view_index(self.packages@, name@);
        }
        let existing = self.find(name);
        match self.first_conflict(existing, &nicknames) {
            Some(k) => {
                return Err(in_use_message(&nicknames[k]));
            },
            None => {},
        }
        let ghost before = self.packages@;
        match existing {
            Some(i) => {
                let record = &mut self.packages[i];
                add_texts(&mut record.symbols, &exports);
                record.nicknames = nicknames;
                record.uses = uses;
                record.exports = exports;
                record.documentation = documentation;
                record.local_nicknames = local_nicknames;
                proof {
                    lemma_view_update(before, self.packages@, i as int);
                }
            },
            None => {
                let mut symbols: Vec<String> = Vec::new();
                proof {
                    assert(texts(symbols@) =~= Seq::<Seq<char>>::empty());
                }
                add_texts(&mut symbols, &exports);
                let record = PackageRecord {
                    name: owned(name),
                    nicknames,
                    uses,
                    exports,
                    symbols,
                    shadows: Vec::new(),
                    imports: Vec::new(),
                    documentation,
                    local_nicknames,
                };
                proof {
                    assert(texts(record.shadows@) =~= Seq::<Seq<char>>::empty());
                    assert(pair_texts(record.imports@) =~= Seq::<(Seq<char>, Seq<char>)>::empty());
                }
                self.packages.push(record);
                proof {
                    assert(registry_view(self.packages@) =~= registry_view(before).push(record_view(record)));
                }
            },
        }
        Ok(())
    }
}

/// The message for an imported symbol that does not exist.
fn unknown_symbol_message(source: &String, symbol: &String) -> (r: String)
    ensures
        r@ == "unknown symbol "@ + source@ + "::"@ + symbol@,
{
    let a = chars_of("unknown symbol ");
    let b = chars_of(source.as_str());
    let c = chars_of("::");
    let d = chars_of(symbol.as_str());
    string_from(&join_text(&join_text(&join_text(&a, &b), &c), &d))
}

proof fn lemma_operations_step(vs: Seq<PackageView>, target: Seq<char>, ops: Seq<OperationModel>, k: int)
    requires
        0 <= k < ops.len(),
    ensures
        operations_view(vs, target, ops.take(k + 1)) == operation_view(operations_view(vs, target, ops.take(k)), target, ops[k]),
{
    assert(ops.take(k + 1).drop_last() =~= ops.take(k));
}

impl PackageRegistry {
    /// The first of `uses` that names no package.
    fn first_missing(&self, uses: &Vec<String>) -> (r: Option<usize>)
        ensures
            match r {
                Some(k) => k < uses.len() && missing_use(registry_view(self.packages@), texts(uses@), 0) == Some(
                    uses@[k as int]@,
                ),
                None => missing_use(registry_view(self.packages@), texts(uses@), 0) is None,
            },
    {
        let ghost vs = registry_view(self.packages@);
        let ghost ns = texts(uses@);
        let mut k: usize = 0;
        while k < uses.len()
            invariant
                k <= uses.len(),
                vs == registry_view(self.packages@),
                ns == texts(uses@),
                missing_use(vs, ns, 0) == missing_use(vs, ns, k as int),
            decreases uses.len() - k,
        {
            proof {
                lemma_view_index(self.packages@, ns[k as int]);
            }
            if !self.package_exists(uses[k].as_str()) {
                return Some(k);
            }
            k = k + 1;
        }
        None
    }

    /// The message for the first import whose package or symbol does not
    /// exist (see `import_problem`).
    fn import_failure(&self, operations: &Vec<DefpackageOperation>) -> (r: Option<String>)
        ensures
            match import_problem(registry_view(self.packages@), operation_models(operations@), 0) {
                Some(m) => r matches Some(t) && t@ == m,
                None => r is None,
            },
    {
        let ghost vs = registry_view(self.packages@);
        let ghost ops = operation_models(operations@);
        let mut j: usize = 0;
        while j < operations.len()
            invariant
                j <= operations.len(),
                vs == registry_view(self.packages@),
                ops == operation_models(operations@),
                import_problem(vs, ops, 0) == import_problem(vs, ops, j as int),
            decreases operations.len() - j,
        {
            proof {
                assert(ops[j as int] == operation_model(operations@[j as int]));
            }
            match &operations[j] {
                DefpackageOperation::Import { source_package, source_name, .. } => {
                    proof {
                        lemma_view_index(self.packages@, source_package@);
                    }
                    match self.find(source_package.as_str()) {
                        None => {
                            let missing = chars_of(source_package.as_str());
                            return Some(message_with("unknown package ", &missing));
                        },
                        Some(i) => {
                            proof {
                                lemma_lists(self.packages@[i as int].symbols@, source_name@);
                                lemma_lists(self.packages@[i as int].exports@, source_name@);
                            }
                            if !self.symbol_exists(source_package.as_str(), source_name.as_str()) {
                                return Some(unknown_symbol_message(source_package, source_name));
                            }
                        },
                    }
                },
                _ => {},
            }
            j = j + 1;
        }
        None
    }

    /// The name of the package `name` designates (see `canonical_in`).
    pub fn canonical_name(&self, name: &str) -> (r: String)
        ensures
            r@ == canonical_in(registry_view(self.packages@), name@),
    {
        proof {
            lemma_view_index(self.packages@, name@);
        }
        match self.find(name) {
            Some(i) => {
                assert(registry_view(self.packages@)[i as int].name == self.packages@[i as int].name@);
                self.packages[i].name.clone()
            },
            None => owned(name),
        }
    }

    /// Shadows, interns and imports symbols of the package `target` names,
    /// in order.
    pub fn apply_operations(&mut self, target: &String, operations: &Vec<DefpackageOperation>)
        ensures
            final(self).current == old(self).current,
            registry_view(final(self).packages@) == operations_view(
                registry_view(old(self).packages@),
                target@,
                operation_models(operations@),
            ),
    {
        let ghost start = registry_view(self.packages@);
        let ghost ops = operation_models(operations@);
        let mut k: usize = 0;
        while k < operations.len()
            invariant
                k <= operations.len(),
                ops == operation_models(operations@),
                registry_view(self.packages@) == operations_view(start, target@, ops.take(k as int)),
                self.current == old(self).current,
            decreases operations.len() - k,
        {
            proof {
                lemma_operations_step(start, target@, ops, k as int);
                assert(ops[k as int] == operation_model(operations@[k as int]));
            }
            match &operations[k] {
                DefpackageOperation::Shadow(symbol) => {
                    self.shadow_symbol(target.as_str(), symbol.as_str());
                },
                DefpackageOperation::Intern(symbol) => {
                    let _ = self.intern_symbol(target.as_str(), symbol.as_str());
                },
                DefpackageOperation::Import { source_package, source_name, shadowing } => {
                    self.import_symbol(source_package.as_str(), source_name.as_str(), target.as_str(), *shadowing);
                },
            }
            k = k + 1;
        }
        proof {
            assert(ops.take(operations.len() as int) =~= ops);
        }
    }
}

impl Runtime {
    /// Checks, before anything changes, that every used package and every
    /// imported package and symbol of a `DEFPACKAGE` exists (see
    /// `defpackage_problem`).
    pub fn validate_defpackage(&self, spec: &DefpackageSpec, span: Span) -> (r: Result<(), RuntimeError>)
        ensures
            match defpackage_problem(
                registry_view(self.packages.packages@),
                texts(spec.use_packages@),
                operation_models(spec.operations@),
            ) {
                Some(m) => r matches Err(e) && is_package_error(e, m, span),
                None => r is Ok,
            },
    {
        match self.packages.first_missing(&spec.use_packages) {
            Some(k) => {
                let missing = chars_of(spec.use_packages[k].as_str());
                return Err(package_error(message_with("unknown package ", &missing).as_str(), span));
            },
            None => {},
        }
        match self.packages.import_failure(&spec.operations) {
            Some(message) => Err(package_error(message.as_str(), span)),
            None => Ok(()),
        }
    }

    /// Defines the package of a checked `DEFPACKAGE`, then shadows, interns
    /// and imports its symbols in order; the value is the package. A
    /// nickname in use is a package error and changes nothing.
    pub fn apply_defpackage(&mut self, spec: DefpackageSpec, span: Span) -> (r: Result<Value, RuntimeError>)
        ensures
            final(self).dynamic == old(self).dynamic,
            final(self).scopes == old(self).scopes,
            final(self).packages.current == old(self).packages.current,
            match defpackage_effect(
                registry_view(old(self).packages.packages@),
                spec.name@,
                texts(spec.nicknames@),
                texts(spec.use_packages@),
                texts(spec.exports@),
                option_text(spec.documentation),
                pair_texts(spec.local_nicknames@),
                operation_models(spec.operations@),
            ) {
                Err(m) => r matches Err(e) && is_package_error(e, m, span) && final(self).packages == old(self).packages,
                Ok(vs) => registry_view(final(self).packages.packages@) == vs && (r matches Ok(Value::Package(c))
                    && c@ == canonical_in(vs, spec.name@)),
            },
    {
        let ghost vs0 = registry_view(self.packages.packages@);
        let ghost effect = defpackage_effect(
            vs0,
            spec.name@,
            texts(spec.nicknames@),
            texts(spec.use_packages@),
            texts(spec.exports@),
            option_text(spec.documentation),
            pair_texts(spec.local_nicknames@),
            operation_models(spec.operations@),
        );
        let ghost defined = defined_registry(
            vs0,
            spec.name@,
            texts(spec.nicknames@),
            texts(spec.use_packages@),
            texts(spec.exports@),
            option_text(spec.documentation),
            pair_texts(spec.local_nicknames@),
        );
        let ghost ops = operation_models(spec.operations@);
        let DefpackageSpec { name, nicknames, use_packages, exports, operations, documentation, local_nicknames } = spec;
        match self.packages.define_package(name.as_str(), nicknames, use_packages, exports, documentation, local_nicknames) {
            Err(message) => {
                return Err(package_error(message.as_str(), span));
            },
            Ok(()) => {},
        }
        assert(registry_view(self.packages.packages@) == defined);
        self.packages.apply_operations(&name, &operations);
        assert(effect == Ok::<Seq<PackageView>, Seq<char>>(operations_view(defined, name@, ops)));
        let canonical = self.packages.canonical_name(name.as_str());
        Ok(Value::package(canonical.as_str()))
    }
}

impl Runtime {
    /// `(IN-PACKAGE name)`: makes the package `name` designates current; the
    /// value is the package. An unknown package is a package error.
    pub fn special_in_package(&mut self, items: &[Form]) -> (r: Result<Value, RuntimeError>)
        ensures
            final(self).dynamic == old(self).dynamic,
            final(self).scopes == old(self).scopes,
            final(self).packages.packages == old(self).packages.packages,
            items@.len() != 2 ==> (r matches Err(e) && is_arity_error(e, "in-package"@, "one"@, operands(items@.len())))
                && final(self).packages.current == old(self).packages.current,
            items@.len() == 2 ==> match package_form_outcome(items@[1]) {
                Err(f) => r matches Err(e) && reports(e, f) && final(self).packages.current == old(self).packages.current,
                Ok(n) => match view_index(registry_view(old(self).packages.packages@), n) {
                    None => r matches Err(e) && is_package_error(e, "unknown package "@ + n, items@[1].span)
                        && final(self).packages.current == old(self).packages.current,
                    Some(i) => (r matches Ok(Value::Package(c)) && c@ == registry_view(old(self).packages.packages@)[i].name)
                        && final(self).packages.current@ == registry_view(old(self).packages.packages@)[i].name,
                },
            },
    {
        if items.len() != 2 {
            let count: usize = if items.len() == 0 {
                0
            } else {
                items.len() - 1
            };
            return Err(arity("in-package", "one", count));
        }
        let name = Runtime::package_name_from_form(&items[1])?;
        proof {
            lemma_view_index(self.packages.packages@, name@);
        }
        if !self.packages.package_exists(name.as_str()) {
            let missing = chars_of(name.as_str());
            return Err(package_error(message_with("unknown package ", &missing).as_str(), items[1].span));
        }
        let canonical = self.packages.canonical_name(name.as_str());
        self.packages.set_current(canonical.as_str());
        Ok(Value::package(canonical.as_str()))
    }

    /// `(DEFPACKAGE name option...)`: parses the form (see
    /// `defpackage_outcome`), checks that what it names exists (see
    /// `defpackage_problem`), then defines the package (see
    /// `defpackage_effect`); the value is the package.
    pub fn special_defpackage(&mut self, items: &[Form]) -> (r: Result<Value, RuntimeError>)
        ensures
            final(self).dynamic == old(self).dynamic,
            final(self).scopes == old(self).scopes,
            final(self).packages.current == old(self).packages.current,
            items@.len() < 2 ==> (r matches Err(e) && is_arity_error(e, "defpackage"@, "at least one"@, operands(items@.len())))
                && final(self).packages == old(self).packages,
            items@.len() >= 2 ==> match defpackage_outcome(items@.skip(1)) {
                Err(f) => r matches Err(e) && reports(e, f) && final(self).packages == old(self).packages,
                Ok((name, m)) => match defpackage_problem(
                    registry_view(old(self).packages.packages@),
                    m.use_packages,
                    m.operations,
                ) {
                    Some(message) => r matches Err(e) && is_package_error(e, message, items@[1].span)
                        && final(self).packages == old(self).packages,
                    None => match defpackage_effect(
                        registry_view(old(self).packages.packages@),
                        name,
                        m.nicknames,
                        m.use_packages,
                        m.exports,
                        m.documentation,
                        m.local_nicknames,
                        m.operations,
                    ) {
                        Err(message) => r matches Err(e) && is_package_error(e, message, items@[1].span)
                            && final(self).packages == old(self).packages,
                        Ok(vs) => registry_view(final(self).packages.packages@) == vs && (r matches Ok(Value::Package(c))
                            && c@ == canonical_in(vs, name)),
                    },
                },
            },
    {
        if items.len() < 2 {
            let count: usize = if items.len() == 0 {
                0
            } else {
                items.len() - 1
            };
            return Err(arity("defpackage", "at least one", count));
        }
        let rest = vstd::slice::slice_subrange(items, 1, items.len());
        proof {
            assert(rest@ =~= items@.skip(1));
        }
        let spec = Runtime::parse_defpackage(rest)?;
        let ghost model = defpackage_outcome(items@.skip(1))->Ok_0.1;
        proof {
            lemma_spec_models(spec, model);
        }
        self.validate_defpackage(&spec, items[1].span)?;
        self.apply_defpackage(spec, items[1].span)
    }
}

/// A parsed spec and its model name the same texts.
proof fn lemma_spec_models(s: DefpackageSpec, m: DefpackageModel)
    requires
        spec_is(s, s.name@, m),
    ensures
        texts(s.nicknames@) == m.nicknames,
        texts(s.use_packages@) == m.use_packages,
        texts(s.exports@) == m.exports,
        option_text(s.documentation) == m.documentation,
        pair_texts(s.local_nicknames@) == m.local_nicknames,
        operation_models(s.operations@) == m.operations,
{
    assert(texts(s.nicknames@) =~= m.nicknames);
    assert(texts(s.use_packages@) =~= m.use_packages);
    assert(texts(s.exports@) =~= m.exports);
    assert(pair_texts(s.local_nicknames@) =~= m.local_nicknames);
    assert forall|i: int| 0 <= i < m.operations.len() implies operation_models(s.operations@)[i] == m.operations[i] by {
        assert(operation_is(s.operations@[i], m.operations[i]));
    }
    assert(operation_models(s.operations@) =~= m.operations);
}

/// Adding names keeps the names there and adds each new one.
pub proof fn lemma_add_names_contains(names: Seq<Seq<char>>, more: Seq<Seq<char>>, n: Seq<char>)
    ensures
        (names.contains(n) || more.contains(n)) ==> add_names(names, more).contains(n),
    decreases more.len(),
{
    if more.len() > 0 {
        let rest = more.drop_last();
        lemma_add_names_contains(names, rest, n);
        let before = add_names(names, rest);
        if more.contains(n) && !rest.contains(n) {
            let k = choose|k: int| 0 <= k < more.len() && more[k] == n;
            if k < more.len() - 1 {
                assert(rest[k] == n);
            }
            assert(more.last() == n);
        }
        if before.contains(n) {
            let k = choose|k: int| 0 <= k < before.len() && before[k] == n;
            if !before.contains(more.last()) {
                assert(before.push(more.last())[k] == n);
            }
        }
        if more.last() == n && !before.contains(n) {
            assert(before.push(n)[before.len() as int] == n);
        }
    }
}

/// Every exported name of a package `DEFPACKAGE` leaves is present in it,
/// and it exports exactly the given names.
pub proof fn lemma_exports_present(
    existing: Option<PackageView>,
    name: Seq<char>,
    nicknames: Seq<Seq<char>>,
    uses: Seq<Seq<char>>,
    exports: Seq<Seq<char>>,
    documentation: Option<Seq<char>>,
    local_nicknames: Seq<(Seq<char>, Seq<char>)>,
    symbol: Seq<char>,
)
    ensures
        defined_view(existing, name, nicknames, uses, exports, documentation, local_nicknames).exports == exports,
        exports.contains(symbol) ==> defined_view(
            existing,
            name,
            nicknames,
            uses,
            exports,
            documentation,
            local_nicknames,
        ).symbols.contains(symbol),
{
    match existing {
        Some(p) => lemma_add_names_contains(p.symbols, exports, symbol),
        None => lemma_add_names_contains(Seq::empty(), exports, symbol),
    }
}

/// Interning a symbol twice is interning it once.
pub proof fn lemma_intern_twice(p: PackageView, symbol: Seq<char>)
    ensures
        interned_view(interned_view(p, symbol), symbol) == interned_view(p, symbol),
{
    let once = add_name(p.symbols, symbol);
    if !p.symbols.contains(symbol) {
        assert(once[p.symbols.len() as int] == symbol);
    }
    assert(once.contains(symbol));
}

/// A shadowed symbol is present and among the shadows.
pub proof fn lemma_shadow_present(p: PackageView, symbol: Seq<char>)
    ensures
        shadowed_view(p, symbol).symbols.contains(symbol),
        shadowed_view(p, symbol).shadows.contains(symbol),
{
    if !p.symbols.contains(symbol) {
        assert(add_name(p.symbols, symbol)[p.symbols.len() as int] == symbol);
    }
    if !p.shadows.contains(symbol) {
        assert(add_name(p.shadows, symbol)[p.shadows.len() as int] == symbol);
    }
}

/// An imported symbol is present, and its first import records the home
/// it was imported with.
pub proof fn lemma_import_recorded(p: PackageView, symbol: Seq<char>, home: Seq<char>, shadowing: bool)
    ensures
        imported_view(p, symbol, home, shadowing).symbols.contains(symbol),
        match import_index(imported_view(p, symbol, home, shadowing).imports, symbol, 0) {
            Some(k) => imported_view(p, symbol, home, shadowing).imports[k] == (symbol, home),
            None => false,
        },
{
    if !p.symbols.contains(symbol) {
        assert(add_name(p.symbols, symbol)[p.symbols.len() as int] == symbol);
    }
    let v = p.imports;
    let w = put_import(v, symbol, home);
    lemma_import_index(v, symbol, 0);
    match import_index(v, symbol, 0) {
        Some(i) => {
            assert forall|j: int| 0 <= j < i implies (#[trigger] w[j]).0 != symbol by {
                assert(w[j] == v[j]);
            }
            lemma_first_import(w, symbol, i);
        },
        None => {
            assert forall|j: int| 0 <= j < v.len() implies (#[trigger] w[j]).0 != symbol by {
                assert(w[j] == v[j]);
            }
            lemma_first_import(w, symbol, v.len() as int);
        },
    }
}

/// The first import of a symbol is found.
proof fn lemma_first_import(v: Seq<(Seq<char>, Seq<char>)>, symbol: Seq<char>, i: int)
    requires
        0 <= i < v.len(),
        v[i].0 == symbol,
        forall|j: int| 0 <= j < i ==> (#[trigger] v[j]).0 != symbol,
    ensures
        import_index(v, symbol, 0) == Some(i),
{
    lemma_first_import_from(v, symbol, i, 0);
}

proof fn lemma_first_import_from(v: Seq<(Seq<char>, Seq<char>)>, symbol: Seq<char>, i: int, k: int)
    requires
        0 <= k <= i < v.len(),
        v[i].0 == symbol,
        forall|j: int| 0 <= j < i ==> (#[trigger] v[j]).0 != symbol,
    ensures
        import_index(v, symbol, k) == Some(i),
    decreases i - k,
{
    if k < i {
        assert(v[k].0 != symbol);
        lemma_first_import_from(v, symbol, i, k + 1);
    }
}

} // verus!
