//! The option grammar of `defpackage`.
use vstd::prelude::*;
use crate::error::{invalid, reports, Failure, RuntimeError};
use crate::names::COMMON_LISP_PACKAGE;
use crate::numbers::{i64_of, parse_i64};
use crate::package::{list_has, lists};
use crate::packages::{package_form_outcome, spells, symbol_form_outcome};
use crate::runtime::Runtime;
use crate::syntax::{normalize, normalize_text, Form, FormKind, Span};
use crate::text::{chars_of, owned, text_is};
use crate::validation::trim_colons;

verus! {

broadcast use vstd::std_specs::vec::group_vec_axioms;

/// What `defpackage` does to symbols after the package exists.
#[derive(Debug)]
pub enum DefpackageOperation {
    Shadow(String),
    Intern(String),
    Import { source_package: String, source_name: String, shadowing: bool },
}

/// A parsed `defpackage` form.
#[derive(Debug)]
pub struct DefpackageSpec {
    pub name: String,
    pub nicknames: Vec<String>,
    pub use_packages: Vec<String>,
    /// The exported names, each once, in order of first mention.
    pub exports: Vec<String>,
    pub operations: Vec<DefpackageOperation>,
    pub documentation: Option<String>,
    /// Local nicknames and the packages they stand for; no nickname twice.
    pub local_nicknames: Vec<(String, String)>,
}

/// The model of a symbol operation.
pub enum OperationModel {
    Shadow(Seq<char>),
    Intern(Seq<char>),
    Import(Seq<char>, Seq<char>, bool),
}

/// The options read so far, and which single-use options were seen.
pub struct DefpackageModel {
    pub nicknames: Seq<Seq<char>>,
    pub use_packages: Seq<Seq<char>>,
    pub exports: Seq<Seq<char>>,
    pub operations: Seq<OperationModel>,
    pub documentation: Option<Seq<char>>,
    pub local_nicknames: Seq<(Seq<char>, Seq<char>)>,
    pub saw_nicknames: bool,
    pub saw_use: bool,
    pub saw_documentation: bool,
    pub saw_size: bool,
}

/// Before any option: the package uses `COMMON-LISP`.
pub open spec fn initial_model() -> DefpackageModel {
    DefpackageModel {
        nicknames: Seq::empty(),
        use_packages: seq![COMMON_LISP_PACKAGE@],
        exports: Seq::empty(),
        operations: Seq::empty(),
        documentation: None,
        local_nicknames: Seq::empty(),
        saw_nicknames: false,
        saw_use: false,
        saw_documentation: false,
        saw_size: false,
    }
}

/// Package names of forms, left to right; the first refusal decides.
pub open spec fn package_forms_outcome(forms: Seq<Form>) -> Result<Seq<Seq<char>>, Failure>
    decreases forms.len(),
{
    if forms.len() == 0 {
        Ok(Seq::empty())
    } else {
        match package_forms_outcome(forms.drop_last()) {
            Err(f) => Err(f),
            Ok(ns) => match package_form_outcome(forms.last()) {
                Ok(n) => Ok(ns.push(n)),
                Err(f) => Err(f),
            },
        }
    }
}

/// Symbol names of forms, left to right; the first refusal decides.
pub open spec fn symbol_forms_outcome(forms: Seq<Form>) -> Result<Seq<Seq<char>>, Failure>
    decreases forms.len(),
{
    if forms.len() == 0 {
        Ok(Seq::empty())
    } else {
        match symbol_forms_outcome(forms.drop_last()) {
            Err(f) => Err(f),
            Ok(ns) => match symbol_form_outcome(forms.last()) {
                Ok(n) => Ok(ns.push(n)),
                Err(f) => Err(f),
            },
        }
    }
}

/// A set of names with more names added, each once.
pub open spec fn add_names(set: Seq<Seq<char>>, names: Seq<Seq<char>>) -> Seq<Seq<char>>
    decreases names.len(),
{
    if names.len() == 0 {
        set
    } else {
        let s = add_names(set, names.drop_last());
        if s.contains(names.last()) {
            s
        } else {
            s.push(names.last())
        }
    }
}

/// Operations for names: shadow (0), intern (1) or import from `source`.
pub open spec fn operations_for(kind: nat, names: Seq<Seq<char>>, source: Seq<char>, shadowing: bool) -> Seq<OperationModel>
    decreases names.len(),
{
    if names.len() == 0 {
        Seq::empty()
    } else {
        let n = names.last();
        operations_for(kind, names.drop_last(), source, shadowing).push(
            if kind == 0 {
                OperationModel::Shadow(n)
            } else if kind == 1 {
                OperationModel::Intern(n)
            } else {
                OperationModel::Import(source, n, shadowing)
            },
        )
    }
}

/// Whether a nickname is already mapped.
pub open spec fn has_nickname(m: Seq<(Seq<char>, Seq<char>)>, n: Seq<char>) -> bool {
    exists|i: int| 0 <= i < m.len() && m[i].0 == n
}

/// One local nickname option: a two-element list of package names.
pub open spec fn local_nickname_step(m: Seq<(Seq<char>, Seq<char>)>, f: Form) -> Result<Seq<(Seq<char>, Seq<char>)>, Failure> {
    match f.kind {
        FormKind::List(mapping) => if mapping.len() != 2 {
            Err(Failure::Invalid("defpackage local nickname needs a two-element list"@, f.span))
        } else {
            match package_form_outcome(mapping@[0]) {
                Err(e) => Err(e),
                Ok(n) => match package_form_outcome(mapping@[1]) {
                    Err(e) => Err(e),
                    Ok(t) => if has_nickname(m, n) {
                        Err(Failure::Invalid("defpackage has duplicate local package nickname"@, f.span))
                    } else {
                        Ok(m.push((n, t)))
                    },
                },
            }
        },
        _ => Err(Failure::Invalid("defpackage local nickname needs a two-element list"@, f.span)),
    }
}

/// Local nickname options, left to right.
pub open spec fn local_nicknames_outcome(m: Seq<(Seq<char>, Seq<char>)>, forms: Seq<Form>) -> Result<Seq<(Seq<char>, Seq<char>)>, Failure>
    decreases forms.len(),
{
    if forms.len() == 0 {
        Ok(m)
    } else {
        match local_nicknames_outcome(m, forms.drop_last()) {
            Err(f) => Err(f),
            Ok(mm) => local_nickname_step(mm, forms.last()),
        }
    }
}

/// The first form of an option list names the option.
pub open spec fn option_name(items: Seq<Form>) -> Option<Seq<char>> {
    if items.len() > 0 {
        match items[0].kind {
            FormKind::Atom(n) => Some(n@),
            _ => None,
        }
    } else {
        None
    }
}

/// Reads one `defpackage` option.
pub open spec fn defpackage_step(m: DefpackageModel, opt: Form) -> Result<DefpackageModel, Failure> {
    match opt.kind {
        FormKind::List(vitems) => {
            let items = vitems@;
            match option_name(items) {
                None => Err(Failure::Invalid("defpackage option needs a name"@, opt.span)),
                Some(raw) => {
                    let key = trim_colons(normalize(raw));
                    let rest = items.skip(1);
                    if key == "NICKNAMES"@ {
                        if m.saw_nicknames {
                            Err(Failure::Invalid("defpackage has duplicate :nicknames options"@, opt.span))
                        } else {
                            match package_forms_outcome(rest) {
                                Err(f) => Err(f),
                                Ok(ns) => Ok(DefpackageModel { saw_nicknames: true, nicknames: m.nicknames + ns, ..m }),
                            }
                        }
                    } else if key == "USE"@ {
                        if m.saw_use {
                            Err(Failure::Invalid("defpackage has duplicate :use options"@, opt.span))
                        } else {
                            match package_forms_outcome(rest) {
                                Err(f) => Err(f),
                                Ok(ns) => Ok(DefpackageModel { saw_use: true, use_packages: ns, ..m }),
                            }
                        }
                    } else if key == "DOCUMENTATION"@ {
                        if m.saw_documentation || items.len() != 2 {
                            Err(Failure::Invalid("defpackage :documentation needs one string"@, opt.span))
                        } else {
                            match items[1].kind {
                                FormKind::String(v) => Ok(DefpackageModel { saw_documentation: true, documentation: Some(v@), ..m }),
                                _ => Err(Failure::Invalid("defpackage :documentation needs a string"@, items[1].span)),
                            }
                        }
                    } else if key == "SIZE"@ {
                        if m.saw_size || items.len() != 2 {
                            Err(Failure::Invalid("defpackage :size needs one non-negative integer"@, opt.span))
                        } else {
                            match items[1].kind {
                                FormKind::Atom(v) => match i64_of(v@) {
                                    Some(size) => if size < 0 {
                                        Err(Failure::Invalid("defpackage :size needs a non-negative integer"@, items[1].span))
                                    } else {
                                        Ok(DefpackageModel { saw_size: true, ..m })
                                    },
                                    None => Err(Failure::Invalid("defpackage :size needs a non-negative integer"@, items[1].span)),
                                },
                                _ => Err(Failure::Invalid("defpackage :size needs a non-negative integer"@, items[1].span)),
                            }
                        }
                    } else if key == "LOCAL-NICKNAMES"@ {
                        match local_nicknames_outcome(m.local_nicknames, rest) {
                            Err(f) => Err(f),
                            Ok(ln) => Ok(DefpackageModel { local_nicknames: ln, ..m }),
                        }
                    } else if key == "EXPORT"@ {
                        match symbol_forms_outcome(rest) {
                            Err(f) => Err(f),
                            Ok(ns) => Ok(DefpackageModel { exports: add_names(m.exports, ns), ..m }),
                        }
                    } else if key == "SHADOW"@ {
                        match symbol_forms_outcome(rest) {
                            Err(f) => Err(f),
                            Ok(ns) => Ok(DefpackageModel { operations: m.operations + operations_for(0, ns, Seq::empty(), false), ..m }),
                        }
                    } else if key == "INTERN"@ {
                        match symbol_forms_outcome(rest) {
                            Err(f) => Err(f),
                            Ok(ns) => Ok(DefpackageModel { operations: m.operations + operations_for(1, ns, Seq::empty(), false), ..m }),
                        }
                    } else if key == "IMPORT-FROM"@ || key == "SHADOWING-IMPORT-FROM"@ {
                        if items.len() < 2 {
                            Err(Failure::Invalid("defpackage import option needs a package name"@, opt.span))
                        } else {
                            match package_form_outcome(items[1]) {
                                Err(f) => Err(f),
                                Ok(source) => match symbol_forms_outcome(items.skip(2)) {
                                    Err(f) => Err(f),
                                    Ok(ns) => Ok(DefpackageModel {
                                        operations: m.operations + operations_for(2, ns, source, key == "SHADOWING-IMPORT-FROM"@),
                                        ..m
                                    }),
                                },
                            }
                        }
                    } else {
                        Err(Failure::Invalid("unsupported defpackage option"@, items[0].span))
                    }
                },
            }
        },
        _ => Err(Failure::Invalid("defpackage option must be a list"@, opt.span)),
    }
}

/// Reads options left to right; the first refusal decides.
pub open spec fn defpackage_options_outcome(opts: Seq<Form>) -> Result<DefpackageModel, Failure>
    decreases opts.len(),
{
    if opts.len() == 0 {
        Ok(initial_model())
    } else {
        match defpackage_options_outcome(opts.drop_last()) {
            Err(f) => Err(f),
            Ok(m) => defpackage_step(m, opts.last()),
        }
    }
}

/// What a `defpackage` form (package name, then options) reads as.
pub open spec fn defpackage_outcome(items: Seq<Form>) -> Result<(Seq<char>, DefpackageModel), Failure> {
    match package_form_outcome(items[0]) {
        Err(f) => Err(f),
        Ok(name) => match defpackage_options_outcome(items.skip(1)) {
            Err(f) => Err(f),
            Ok(m) => Ok((name, m)),
        },
    }
}

/// Whether an exec operation is the one a model describes.
pub open spec fn operation_is(o: DefpackageOperation, m: OperationModel) -> bool {
    match (o, m) {
        (DefpackageOperation::Shadow(a), OperationModel::Shadow(b)) => a@ == b,
        (DefpackageOperation::Intern(a), OperationModel::Intern(b)) => a@ == b,
        (
            DefpackageOperation::Import { source_package, source_name, shadowing },
            OperationModel::Import(p, n, s),
        ) => source_package@ == p && source_name@ == n && shadowing == s,
        _ => false,
    }
}

/// Whether exec operations are the ones models describe.
pub open spec fn operations_are(v: Seq<DefpackageOperation>, ms: Seq<OperationModel>) -> bool {
    v.len() == ms.len() && forall|i: int| 0 <= i < ms.len() ==> operation_is(#[trigger] v[i], ms[i])
}

/// Whether exec nickname pairs are the ones a model describes.
pub open spec fn pairs_are(v: Seq<(String, String)>, ms: Seq<(Seq<char>, Seq<char>)>) -> bool {
    v.len() == ms.len() && forall|i: int| 0 <= i < ms.len() ==> (#[trigger] v[i]).0@ == ms[i].0 && v[i].1@ == ms[i].1
}

/// Whether a parsed spec is the one a model describes.
pub open spec fn spec_is(s: DefpackageSpec, name: Seq<char>, m: DefpackageModel) -> bool {
    &&& s.name@ == name
    &&& spells(s.nicknames@, m.nicknames)
    &&& spells(s.use_packages@, m.use_packages)
    &&& spells(s.exports@, m.exports)
    &&& operations_are(s.operations@, m.operations)
    &&& match (s.documentation, m.documentation) {
        (Some(a), Some(b)) => a@ == b,
        (None, None) => true,
        _ => false,
    }
    &&& pairs_are(s.local_nicknames@, m.local_nicknames)
}

/// The options read so far.
pub struct DefpackageState {
    pub nicknames: Vec<String>,
    pub use_packages: Vec<String>,
    pub exports: Vec<String>,
    pub operations: Vec<DefpackageOperation>,
    pub documentation: Option<String>,
    pub local_nicknames: Vec<(String, String)>,
    pub saw_nicknames: bool,
    pub saw_use: bool,
    pub saw_documentation: bool,
    pub saw_size: bool,
}

/// Whether a state is the one a model describes.
pub open spec fn state_is(st: DefpackageState, m: DefpackageModel) -> bool {
    &&& spells(st.nicknames@, m.nicknames)
    &&& spells(st.use_packages@, m.use_packages)
    &&& spells(st.exports@, m.exports)
    &&& operations_are(st.operations@, m.operations)
    &&& match (st.documentation, m.documentation) {
        (Some(a), Some(b)) => a@ == b,
        (None, None) => true,
        _ => false,
    }
    &&& pairs_are(st.local_nicknames@, m.local_nicknames)
    &&& st.saw_nicknames == m.saw_nicknames
    &&& st.saw_use == m.saw_use
    &&& st.saw_documentation == m.saw_documentation
    &&& st.saw_size == m.saw_size
}

proof fn lemma_package_forms_failure(forms: Seq<Form>, i: nat)
    requires
        i <= forms.len(),
        package_forms_outcome(forms.take(i as int)) is Err,
    ensures
        package_forms_outcome(forms) == package_forms_outcome(forms.take(i as int)),
    decreases forms.len() - i,
{
    if i < forms.len() {
        assert(forms.take((i + 1) as int).drop_last() =~= forms.take(i as int));
        lemma_package_forms_failure(forms, i + 1);
    } else {
        assert(forms.take(i as int) =~= forms);
    }
}

proof fn lemma_symbol_forms_failure(forms: Seq<Form>, i: nat)
    requires
        i <= forms.len(),
        symbol_forms_outcome(forms.take(i as int)) is Err,
    ensures
        symbol_forms_outcome(forms) == symbol_forms_outcome(forms.take(i as int)),
    decreases forms.len() - i,
{
    if i < forms.len() {
        assert(forms.take((i + 1) as int).drop_last() =~= forms.take(i as int));
        lemma_symbol_forms_failure(forms, i + 1);
    } else {
        assert(forms.take(i as int) =~= forms);
    }
}

proof fn lemma_local_nicknames_failure(m: Seq<(Seq<char>, Seq<char>)>, forms: Seq<Form>, i: nat)
    requires
        i <= forms.len(),
        local_nicknames_outcome(m, forms.take(i as int)) is Err,
    ensures
        local_nicknames_outcome(m, forms) == local_nicknames_outcome(m, forms.take(i as int)),
    decreases forms.len() - i,
{
    if i < forms.len() {
        assert(forms.take((i + 1) as int).drop_last() =~= forms.take(i as int));
        lemma_local_nicknames_failure(m, forms, i + 1);
    } else {
        assert(forms.take(i as int) =~= forms);
    }
}

/// The package names of the forms from position `from` on.
fn package_names_of_forms(forms: &Vec<Form>, from: usize) -> (r: Result<Vec<String>, RuntimeError>)
    requires
        from <= forms.len(),
    ensures
        match package_forms_outcome(forms@.skip(from as int)) {
            Ok(ns) => r matches Ok(v) && spells(v@, ns),
            Err(f) => r matches Err(e) && reports(e, f),
        },
{
    let ghost t = forms@.skip(from as int);
    let mut out: Vec<String> = Vec::new();
    let mut k: usize = from;
    while k < forms.len()
        invariant
            from <= k <= forms@.len(),
            t == forms@.skip(from as int),
            package_forms_outcome(t.take(k - from)) matches Ok(ns) && spells(out@, ns),
        decreases forms.len() - k,
    {
        proof {
            assert(t.take(k - from + 1).drop_last() =~= t.take(k - from));
            assert(t.take(k - from + 1).last() == forms@[k as int]);
        }
        match Runtime::package_name_from_form(&forms[k]) {
            Ok(n) => {
                out.push(n);
            },
            Err(e) => {
                proof {
                    lemma_package_forms_failure(t, (k - from + 1) as nat);
                }
                return Err(e);
            },
        }
        k = k + 1;
    }
    proof {
        assert(t.take(k - from) =~= t);
    }
    Ok(out)
}

/// The symbol names of the forms from position `from` on.
fn symbol_names_of_forms(forms: &Vec<Form>, from: usize) -> (r: Result<Vec<String>, RuntimeError>)
    requires
        from <= forms.len(),
    ensures
        match symbol_forms_outcome(forms@.skip(from as int)) {
            Ok(ns) => r matches Ok(v) && spells(v@, ns),
            Err(f) => r matches Err(e) && reports(e, f),
        },
{
    let ghost t = forms@.skip(from as int);
    let mut out: Vec<String> = Vec::new();
    let mut k: usize = from;
    while k < forms.len()
        invariant
            from <= k <= forms@.len(),
            t == forms@.skip(from as int),
            symbol_forms_outcome(t.take(k - from)) matches Ok(ns) && spells(out@, ns),
        decreases forms.len() - k,
    {
        proof {
            assert(t.take(k - from + 1).drop_last() =~= t.take(k - from));
            assert(t.take(k - from + 1).last() == forms@[k as int]);
        }
        match Runtime::symbol_name_from_form(&forms[k]) {
            Ok(n) => {
                out.push(n);
            },
            Err(e) => {
                proof {
                    lemma_symbol_forms_failure(t, (k - from + 1) as nat);
                }
                return Err(e);
            },
        }
        k = k + 1;
    }
    proof {
        assert(t.take(k - from) =~= t);
    }
    Ok(out)
}

/// Appends names to a list.
fn append_names(list: &mut Vec<String>, names: Vec<String>, Ghost(a): Ghost<Seq<Seq<char>>>, Ghost(b): Ghost<Seq<Seq<char>>>)
    requires
        spells(old(list)@, a),
        spells(names@, b),
    ensures
        spells(final(list)@, a + b),
{
    let mut i: usize = 0;
    while i < names.len()
        invariant
            i <= names@.len(),
            spells(names@, b),
            spells(list@, a + b.take(i as int)),
        decreases names.len() - i,
    {
        list.push(names[i].clone());
        proof {
            assert(a + b.take(i + 1) =~= (a + b.take(i as int)).push(b[i as int]));
        }
        i = i + 1;
    }
    proof {
        assert(b.take(names.len() as int) =~= b);
    }
}

proof fn lemma_spells_contains(v: Seq<String>, ns: Seq<Seq<char>>, n: Seq<char>)
    requires
        spells(v, ns),
    ensures
        lists(v, n) == ns.contains(n),
{
    if lists(v, n) {
        let i = choose|i: int| 0 <= i < v.len() && v[i]@ == n;
        assert(ns[i] == n);
    }
    if ns.contains(n) {
        let i = choose|i: int| 0 <= i < ns.len() && ns[i] == n;
        assert(v[i]@ == n);
    }
}

/// Adds names to a set, each once.
fn add_exports(set: &mut Vec<String>, names: Vec<String>, Ghost(a): Ghost<Seq<Seq<char>>>, Ghost(b): Ghost<Seq<Seq<char>>>)
    requires
        spells(old(set)@, a),
        spells(names@, b),
    ensures
        spells(final(set)@, add_names(a, b)),
{
    let mut i: usize = 0;
    while i < names.len()
        invariant
            i <= names@.len(),
            spells(names@, b),
            spells(set@, add_names(a, b.take(i as int))),
        decreases names.len() - i,
    {
        proof {
            assert(b.take(i + 1).drop_last() =~= b.take(i as int));
            assert(b.take(i + 1).last() == b[i as int]);
            lemma_spells_contains(set@, add_names(a, b.take(i as int)), b[i as int]);
        }
        if !list_has(set, names[i].as_str()) {
            set.push(names[i].clone());
        }
        i = i + 1;
    }
    proof {
        assert(b.take(names.len() as int) =~= b);
    }
}

/// Appends operations for names: shadow (0), intern (1) or import (2).
fn add_operations(
    ops: &mut Vec<DefpackageOperation>,
    kind: u8,
    names: Vec<String>,
    source: &String,
    shadowing: bool,
    Ghost(a): Ghost<Seq<OperationModel>>,
    Ghost(b): Ghost<Seq<Seq<char>>>,
    Ghost(src): Ghost<Seq<char>>,
)
    requires
        kind <= 2,
        operations_are(old(ops)@, a),
        spells(names@, b),
        kind == 2 ==> source@ == src,
    ensures
        operations_are(final(ops)@, a + operations_for(kind as nat, b, src, shadowing)),
{
    let mut i: usize = 0;
    while i < names.len()
        invariant
            kind <= 2,
            i <= names@.len(),
            spells(names@, b),
            kind == 2 ==> source@ == src,
            operations_are(ops@, a + operations_for(kind as nat, b.take(i as int), src, shadowing)),
        decreases names.len() - i,
    {
        let n = names[i].clone();
        let op = if kind == 0 {
            DefpackageOperation::Shadow(n)
        } else if kind == 1 {
            DefpackageOperation::Intern(n)
        } else {
            DefpackageOperation::Import { source_package: source.clone(), source_name: n, shadowing }
        };
        ops.push(op);
        proof {
            assert(b.take(i + 1).drop_last() =~= b.take(i as int));
            assert(b.take(i + 1).last() == b[i as int]);
            assert(a + operations_for(kind as nat, b.take(i + 1), src, shadowing) =~= (a + operations_for(
                kind as nat,
                b.take(i as int),
                src,
                shadowing,
            )).push(operations_for(kind as nat, b.take(i + 1), src, shadowing).last()));
        }
        i = i + 1;
    }
    proof {
        assert(b.take(names.len() as int) =~= b);
    }
}

proof fn lemma_pairs_have(v: Seq<(String, String)>, ms: Seq<(Seq<char>, Seq<char>)>, n: Seq<char>)
    requires
        pairs_are(v, ms),
    ensures
        has_nickname(ms, n) == (exists|i: int| 0 <= i < v.len() && v[i].0@ == n),
{
    if has_nickname(ms, n) {
        let i = choose|i: int| 0 <= i < ms.len() && ms[i].0 == n;
        assert(v[i].0@ == n);
    }
    if exists|i: int| 0 <= i < v.len() && v[i].0@ == n {
        let i = choose|i: int| 0 <= i < v.len() && v[i].0@ == n;
        assert(ms[i].0 == n);
    }
}

fn nickname_taken(v: &Vec<(String, String)>, n: &String) -> (r: bool)
    ensures
        r == (exists|i: int| 0 <= i < v@.len() && v@[i].0@ == n@),
{
    let mut i: usize = 0;
    while i < v.len()
        invariant
            i <= v@.len(),
            forall|k: int| 0 <= k < i ==> v@[k].0@ != n@,
        decreases v.len() - i,
    {
        if v[i].0 == *n {
            return true;
        }
        i = i + 1;
    }
    false
}

/// Reads local nickname options from position 1 of an option list.
fn add_local_nicknames(
    map: &mut Vec<(String, String)>,
    items: &Vec<Form>,
    Ghost(m): Ghost<Seq<(Seq<char>, Seq<char>)>>,
) -> (r: Result<(), RuntimeError>)
    requires
        1 <= items.len(),
        pairs_are(old(map)@, m),
    ensures
        match local_nicknames_outcome(m, items@.skip(1)) {
            Ok(mm) => r is Ok && pairs_are(final(map)@, mm),
            Err(f) => r matches Err(e) && reports(e, f),
        },
{
    let ghost t = items@.skip(1);
    let mut k: usize = 1;
    while k < items.len()
        invariant
            1 <= k <= items@.len(),
            t == items@.skip(1),
            local_nicknames_outcome(m, t.take(k - 1)) matches Ok(mm) && pairs_are(map@, mm),
        decreases items.len() - k,
    {
        let ghost before = map@;
        proof {
            assert(t.take(k - 1 + 1).drop_last() =~= t.take(k - 1));
            assert(t.take(k - 1 + 1).last() == items@[k as int]);
        }
        let option = &items[k];
        let message = "defpackage local nickname needs a two-element list";
        let mapping = match &option.kind {
            FormKind::List(mapping) => mapping,
            _ => {
                proof {
                    lemma_local_nicknames_failure(m, t, k as nat);
                }
                return Err(invalid(message, option.span));
            },
        };
        if mapping.len() != 2 {
            proof {
                lemma_local_nicknames_failure(m, t, k as nat);
            }
            return Err(invalid(message, option.span));
        }
        let nickname = match Runtime::package_name_from_form(&mapping[0]) {
            Ok(n) => n,
            Err(e) => {
                proof {
                    lemma_local_nicknames_failure(m, t, k as nat);
                }
                return Err(e);
            },
        };
        let target = match Runtime::package_name_from_form(&mapping[1]) {
            Ok(n) => n,
            Err(e) => {
                proof {
                    lemma_local_nicknames_failure(m, t, k as nat);
                }
                return Err(e);
            },
        };
        proof {
            let mm = local_nicknames_outcome(m, t.take(k - 1))->Ok_0;
            lemma_pairs_have(map@, mm, nickname@);
        }
        if nickname_taken(map, &nickname) {
            proof {
                lemma_local_nicknames_failure(m, t, k as nat);
            }
            return Err(invalid("defpackage has duplicate local package nickname", option.span));
        }
        map.push((nickname, target));
        k = k + 1;
    }
    proof {
        assert(t.take(k - 1) =~= t);
    }
    Ok(())
}

/// Reads one `defpackage` option (see `defpackage_step`).
fn read_option(st: DefpackageState, opt: &Form, Ghost(m): Ghost<DefpackageModel>) -> (r: Result<
    DefpackageState,
    RuntimeError,
>)
    requires
        state_is(st, m),
    ensures
        match defpackage_step(m, *opt) {
            Ok(m2) => r matches Ok(s2) && state_is(s2, m2),
            Err(f) => r matches Err(e) && reports(e, f),
        },
{
    let mut st = st;
    let items = match &opt.kind {
        FormKind::List(v) => v,
        _ => return Err(invalid("defpackage option must be a list", opt.span)),
    };
    let raw = if items.len() > 0 {
        match &items[0].kind {
            FormKind::Atom(n) => n,
            _ => return Err(invalid("defpackage option needs a name", opt.span)),
        }
    } else {
        return Err(invalid("defpackage option needs a name", opt.span));
    };
    let rv = chars_of(raw.as_str());
    let normalized = normalize_text(&rv);
    let key = crate::validation::without_colons(&normalized);
    proof {
        assert(items@.skip(1) =~= items@.skip(1));
    }
    if text_is(&key, "NICKNAMES") {
        if st.saw_nicknames {
            return Err(invalid("defpackage has duplicate :nicknames options", opt.span));
        }
        st.saw_nicknames = true;
        let ns = package_names_of_forms(items, 1)?;
        append_names(&mut st.nicknames, ns, Ghost(m.nicknames), Ghost(package_forms_outcome(items@.skip(1))->Ok_0));
        Ok(st)
    } else if text_is(&key, "USE") {
        if st.saw_use {
            return Err(invalid("defpackage has duplicate :use options", opt.span));
        }
        st.saw_use = true;
        let ns = package_names_of_forms(items, 1)?;
        st.use_packages = ns;
        Ok(st)
    } else if text_is(&key, "DOCUMENTATION") {
        if st.saw_documentation || items.len() != 2 {
            return Err(invalid("defpackage :documentation needs one string", opt.span));
        }
        st.saw_documentation = true;
        match &items[1].kind {
            FormKind::String(v) => {
                st.documentation = Some(v.clone());
                Ok(st)
            },
            _ => Err(invalid("defpackage :documentation needs a string", items[1].span)),
        }
    } else if text_is(&key, "SIZE") {
        if st.saw_size || items.len() != 2 {
            return Err(invalid("defpackage :size needs one non-negative integer", opt.span));
        }
        st.saw_size = true;
        match &items[1].kind {
            FormKind::Atom(v) => {
                let digits = chars_of(v.as_str());
                match parse_i64(&digits) {
                    Some(size) => {
                        if size < 0 {
                            Err(invalid("defpackage :size needs a non-negative integer", items[1].span))
                        } else {
                            Ok(st)
                        }
                    },
                    None => Err(invalid("defpackage :size needs a non-negative integer", items[1].span)),
                }
            },
            _ => Err(invalid("defpackage :size needs a non-negative integer", items[1].span)),
        }
    } else if text_is(&key, "LOCAL-NICKNAMES") {
        add_local_nicknames(&mut st.local_nicknames, items, Ghost(m.local_nicknames))?;
        Ok(st)
    } else if text_is(&key, "EXPORT") {
        let ns = symbol_names_of_forms(items, 1)?;
        add_exports(&mut st.exports, ns, Ghost(m.exports), Ghost(symbol_forms_outcome(items@.skip(1))->Ok_0));
        Ok(st)
    } else if text_is(&key, "SHADOW") {
        let ns = symbol_names_of_forms(items, 1)?;
        let none = owned("");
        add_operations(
            &mut st.operations,
            0,
            ns,
            &none,
            false,
            Ghost(m.operations),
            Ghost(symbol_forms_outcome(items@.skip(1))->Ok_0),
            Ghost(Seq::empty()),
        );
        Ok(st)
    } else if text_is(&key, "INTERN") {
        let ns = symbol_names_of_forms(items, 1)?;
        let none = owned("");
        add_operations(
            &mut st.operations,
            1,
            ns,
            &none,
            false,
            Ghost(m.operations),
            Ghost(symbol_forms_outcome(items@.skip(1))->Ok_0),
            Ghost(Seq::empty()),
        );
        Ok(st)
    } else if text_is(&key, "IMPORT-FROM") || text_is(&key, "SHADOWING-IMPORT-FROM") {
        if items.len() < 2 {
            return Err(invalid("defpackage import option needs a package name", opt.span));
        }
        let source = Runtime::package_name_from_form(&items[1])?;
        let shadowing = text_is(&key, "SHADOWING-IMPORT-FROM");
        let ns = symbol_names_of_forms(items, 2)?;
        add_operations(
            &mut st.operations,
            2,
            ns,
            &source,
            shadowing,
            Ghost(m.operations),
            Ghost(symbol_forms_outcome(items@.skip(2))->Ok_0),
            Ghost(source@),
        );
        Ok(st)
    } else {
        Err(invalid("unsupported defpackage option", items[0].span))
    }
}

proof fn lemma_options_failure(opts: Seq<Form>, i: nat)
    requires
        i <= opts.len(),
        defpackage_options_outcome(opts.take(i as int)) is Err,
    ensures
        defpackage_options_outcome(opts) == defpackage_options_outcome(opts.take(i as int)),
    decreases opts.len() - i,
{
    if i < opts.len() {
        assert(opts.take((i + 1) as int).drop_last() =~= opts.take(i as int));
        lemma_options_failure(opts, i + 1);
    } else {
        assert(opts.take(i as int) =~= opts);
    }
}

impl Runtime {
    /// Parses a `defpackage` form after its operator: the package name, then
    /// options (see `defpackage_outcome`).
    pub fn parse_defpackage(items: &[Form]) -> (r: Result<DefpackageSpec, RuntimeError>)
        requires
            items@.len() >= 1,
        ensures
            match defpackage_outcome(items@) {
                Ok((name, m)) => r matches Ok(s) && spec_is(s, name, m),
                Err(f) => r matches Err(e) && reports(e, f),
            },
    {
        let name = Runtime::package_name_from_form(&items[0])?;
        let mut use_packages: Vec<String> = Vec::new();
        use_packages.push(owned(COMMON_LISP_PACKAGE));
        let mut st = DefpackageState {
            nicknames: Vec::new(),
            use_packages,
            exports: Vec::new(),
            operations: Vec::new(),
            documentation: None,
            local_nicknames: Vec::new(),
            saw_nicknames: false,
            saw_use: false,
            saw_documentation: false,
            saw_size: false,
        };
        let ghost t = items@.skip(1);
        proof {
            assert(st.use_packages@.len() == 1);
            assert(spells(st.use_packages@, seq![COMMON_LISP_PACKAGE@]));
            assert(t.take(0) =~= Seq::<Form>::empty());
        }
        let mut k: usize = 1;
        while k < items.len()
            invariant
                1 <= k <= items@.len(),
                t == items@.skip(1),
                package_form_outcome(items@[0]) == Ok::<Seq<char>, Failure>(name@),
                defpackage_options_outcome(t.take(k - 1)) matches Ok(mm) && state_is(st, mm),
            decreases items.len() - k,
        {
            proof {
                assert(t.take(k - 1 + 1).drop_last() =~= t.take(k - 1));
                assert(t.take(k - 1 + 1).last() == items@[k as int]);
            }
            let ghost mm = defpackage_options_outcome(t.take(k - 1))->Ok_0;
            match read_option(st, &items[k], Ghost(mm)) {
                Ok(next) => {
                    st = next;
                },
                Err(e) => {
                    proof {
                        lemma_options_failure(t, k as nat);
                    }
                    return Err(e);
                },
            }
            k = k + 1;
        }
        proof {
            assert(t.take(k - 1) =~= t);
        }
        Ok(
            DefpackageSpec {
                name,
                nicknames: st.nicknames,
                use_packages: st.use_packages,
                exports: st.exports,
                operations: st.operations,
                documentation: st.documentation,
                local_nicknames: st.local_nicknames,
            },
        )
    }
}

impl DefpackageSpec {
    /// Whether the package exports a name.
    pub fn has_export(&self, name: &str) -> (r: bool)
        ensures
            r == lists(self.exports@, name@),
    {
        list_has(&self.exports, name)
    }

    /// The package a local nickname stands for.
    pub fn local_nickname(&self, nickname: &str) -> (r: Option<&String>)
        ensures
            match r {
                Some(t) => exists|i: int| 0 <= i < self.local_nicknames@.len() && self.local_nicknames@[i].0@ == nickname@
                    && self.local_nicknames@[i].1 == *t,
                None => forall|i: int| 0 <= i < self.local_nicknames@.len() ==> self.local_nicknames@[i].0@ != nickname@,
            },
    {
        let n = owned(nickname);
        let mut i: usize = 0;
        while i < self.local_nicknames.len()
            invariant
                i <= self.local_nicknames@.len(),
                n@ == nickname@,
                forall|k: int| 0 <= k < i ==> self.local_nicknames@[k].0@ != nickname@,
            decreases self.local_nicknames.len() - i,
        {
            if self.local_nicknames[i].0 == n {
                return Some(&self.local_nicknames[i].1);
            }
            i = i + 1;
        }
        None
    }
}

} // verus!
