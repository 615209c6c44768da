//! Package and symbol designators in forms and values, and the
//! `defpackage` / `in-package` forms.
use vstd::prelude::*;
use crate::error::{invalid, package_error, reports, type_error, Failure, RuntimeError};
use crate::names::{package_name_of, package_name_text, split_of, split_symbol_text, unqualified, unqualified_text, KEYWORD_PACKAGE};
use crate::package::{imported_name, package_index, PackageRecord, PackageRegistry};
use crate::text::{join_text, text_is};
use crate::runtime::Runtime;
use crate::syntax::{normalize, normalize_text, Form, FormKind, Span};
use crate::text::{chars_of, contains_char, has_char, string_from, strip_colon, without_colon};
use crate::value::{kind_name_of, list_items_of, symbol_name_of, Value};

verus! {

broadcast use vstd::std_specs::vec::group_vec_axioms;

/// Whether an outcome text is reported as a string result.
pub open spec fn text_outcome(o: Result<Seq<char>, Failure>, r: Result<String, RuntimeError>) -> bool {
    match o {
        Ok(n) => r matches Ok(s) && s@ == n,
        Err(f) => r matches Err(e) && reports(e, f),
    }
}

/// Whether a list of strings spells a list of texts.
pub open spec fn spells(v: Seq<String>, names: Seq<Seq<char>>) -> bool {
    v.len() == names.len() && forall|i: int| 0 <= i < names.len() ==> #[trigger] v[i]@ == names[i]
}

/// Whether an outcome list of texts is reported as a list of strings.
pub open spec fn texts_outcome(o: Result<Seq<Seq<char>>, Failure>, r: Result<Vec<String>, RuntimeError>) -> bool {
    match o {
        Ok(ns) => r matches Ok(v) && spells(v@, ns),
        Err(f) => r matches Err(e) && reports(e, f),
    }
}

/// The text of an atom or string form.
pub open spec fn designator_text(form: Form) -> Option<Seq<char>> {
    match form.kind {
        FormKind::Atom(v) => Some(v@),
        FormKind::String(v) => Some(v@),
        _ => None,
    }
}

/// A package name given by a form: a symbol or string, not qualified
/// (a leading colon is allowed), whose canonical name is neither empty nor
/// holds a colon.
pub open spec fn package_form_outcome(form: Form) -> Result<Seq<char>, Failure> {
    match designator_text(form) {
        None => Err(Failure::Invalid("package name must be a symbol or string"@, form.span)),
        Some(raw) => if !(raw.len() > 0 && raw[0] == ':') && split_of(raw) is Some {
            Err(Failure::Package("package name cannot be qualified"@, form.span))
        } else {
            let name = package_name_of(raw);
            if name.len() == 0 || has_char(name, ':') {
                Err(Failure::Package("invalid package name"@, form.span))
            } else {
                Ok(name)
            }
        },
    }
}

/// A symbol name given by a form: a symbol or string without colons past
/// an optional leading one, normalized.
pub open spec fn symbol_form_outcome(form: Form) -> Result<Seq<char>, Failure> {
    match designator_text(form) {
        None => Err(Failure::Invalid("symbol name must be a symbol or string"@, form.span)),
        Some(raw) => {
            let name = strip_colon(raw);
            if name.len() == 0 || has_char(name, ':') {
                Err(Failure::Package("symbol name cannot be qualified"@, form.span))
            } else {
                Ok(normalize(name))
            }
        },
    }
}

/// A package designator value: a package, string or symbol naming an
/// unqualified package whose canonical name is neither empty nor holds a colon.
pub open spec fn package_designator_outcome(v: Value, span: Span) -> Result<Seq<char>, Failure> {
    let raw = match v {
        Value::Package(n) => Some(n@),
        Value::String(n) => Some(n@),
        _ => symbol_name_of(v),
    };
    match raw {
        None => Err(Failure::Type("PACKAGE DESIGNATOR"@, kind_name_of(v), span)),
        Some(raw) => if split_of(raw) is Some {
            Err(Failure::Package("package name cannot be qualified"@, span))
        } else {
            let name = package_name_of(raw);
            if name.len() == 0 || has_char(name, ':') {
                Err(Failure::Package("invalid package name"@, span))
            } else {
                Ok(name)
            }
        },
    }
}

/// A symbol name given by a string designator value, unqualified, normalized.
pub open spec fn symbol_value_outcome(v: Value, span: Span) -> Result<Seq<char>, Failure> {
    let raw = match v {
        Value::String(n) => Some(n@),
        _ => symbol_name_of(v),
    };
    match raw {
        None => Err(Failure::Type("STRING DESIGNATOR"@, kind_name_of(v), span)),
        Some(raw) => {
            let name = strip_colon(raw);
            if name.len() == 0 || split_of(name) is Some || has_char(name, ':') {
                Err(Failure::Package("symbol name cannot be qualified"@, span))
            } else {
                Ok(normalize(name))
            }
        },
    }
}

/// A name given by a symbol designator value, without package prefix.
pub open spec fn name_designator_outcome(v: Value, span: Span) -> Result<Seq<char>, Failure> {
    let raw = match v {
        Value::String(n) => Some(n@),
        _ => symbol_name_of(v),
    };
    match raw {
        None => Err(Failure::Type("SYMBOL DESIGNATOR"@, kind_name_of(v), span)),
        Some(raw) => {
            let name = strip_colon(raw);
            if name.len() == 0 {
                Err(Failure::Invalid("symbol name cannot be empty"@, span))
            } else {
                Ok(unqualified(name))
            }
        },
    }
}

/// The symbol names of a list of designators, left to right; the first
/// refused designator decides the error.
pub open spec fn symbol_values_outcome(items: Seq<Value>, span: Span) -> Result<Seq<Seq<char>>, Failure>
    decreases items.len(),
{
    if items.len() == 0 {
        Ok(Seq::empty())
    } else {
        match symbol_values_outcome(items.drop_last(), span) {
            Err(f) => Err(f),
            Ok(ns) => match symbol_value_outcome(items.last(), span) {
                Ok(n) => Ok(ns.push(n)),
                Err(f) => Err(f),
            },
        }
    }
}

fn designator_of(form: &Form) -> (r: Option<&String>)
    ensures
        match r {
            Some(s) => designator_text(*form) == Some(s@),
            None => designator_text(*form) is None,
        },
{
    match &form.kind {
        FormKind::Atom(v) => Some(v),
        FormKind::String(v) => Some(v),
        _ => None,
    }
}

/// Whether a text is empty or holds a colon.
fn empty_or_colon(v: &Vec<char>) -> (r: bool)
    ensures
        r == (v@.len() == 0 || has_char(v@, ':')),
{
    v.len() == 0 || contains_char(v, ':')
}

fn value_raw_name(value: &Value, package_ok: bool) -> (r: Option<String>)
    ensures
        match r {
            Some(s) => match *value {
                Value::Package(n) => package_ok && s@ == n@,
                Value::String(n) => s@ == n@,
                _ => symbol_name_of(*value) == Some(s@),
            },
            None => !(package_ok && *value is Package) && !(*value is String) && symbol_name_of(*value) is None,
        },
{
    match value {
        Value::Package(n) => if package_ok {
            Some(n.clone())
        } else {
            None
        },
        Value::String(n) => Some(n.clone()),
        _ => value.symbol_name(),
    }
}

impl Runtime {
    /// A package name given by a form (see `package_form_outcome`).
    pub fn package_name_from_form(form: &Form) -> (r: Result<String, RuntimeError>)
        ensures
            text_outcome(package_form_outcome(*form), r),
    {
        let raw = match designator_of(form) {
            Some(v) => chars_of(v.as_str()),
            None => return Err(invalid("package name must be a symbol or string", form.span)),
        };
        if !(raw.len() > 0 && raw[0] == ':') && split_symbol_text(&raw).is_some() {
            return Err(package_error("package name cannot be qualified", form.span));
        }
        let name = package_name_text(&raw);
        if empty_or_colon(&name) {
            return Err(package_error("invalid package name", form.span));
        }
        Ok(string_from(&name))
    }

    /// A symbol name given by a form (see `symbol_form_outcome`).
    pub fn symbol_name_from_form(form: &Form) -> (r: Result<String, RuntimeError>)
        ensures
            text_outcome(symbol_form_outcome(*form), r),
    {
        let raw = match designator_of(form) {
            Some(v) => chars_of(v.as_str()),
            None => return Err(invalid("symbol name must be a symbol or string", form.span)),
        };
        let name = without_colon(&raw);
        if empty_or_colon(&name) {
            return Err(package_error("symbol name cannot be qualified", form.span));
        }
        Ok(string_from(&normalize_text(&name)))
    }

    /// The package name a designator value gives (see
    /// `package_designator_outcome`).
    pub fn package_designator_name(value: &Value, span: Span) -> (r: Result<String, RuntimeError>)
        ensures
            text_outcome(package_designator_outcome(*value, span), r),
    {
        let raw = match value_raw_name(value, true) {
            Some(n) => chars_of(n.as_str()),
            None => return Err(type_error("PACKAGE DESIGNATOR", value, span)),
        };
        if split_symbol_text(&raw).is_some() {
            return Err(package_error("package name cannot be qualified", span));
        }
        let name = package_name_text(&raw);
        if empty_or_colon(&name) {
            return Err(package_error("invalid package name", span));
        }
        Ok(string_from(&name))
    }

    /// The symbol name a string designator value gives (see
    /// `symbol_value_outcome`).
    pub fn symbol_name_from_value(value: &Value, span: Span) -> (r: Result<String, RuntimeError>)
        ensures
            text_outcome(symbol_value_outcome(*value, span), r),
    {
        let raw = match value_raw_name(value, false) {
            Some(n) => chars_of(n.as_str()),
            None => return Err(type_error("STRING DESIGNATOR", value, span)),
        };
        let name = without_colon(&raw);
        if name.len() == 0 || split_symbol_text(&name).is_some() || contains_char(&name, ':') {
            return Err(package_error("symbol name cannot be qualified", span));
        }
        Ok(string_from(&normalize_text(&name)))
    }

    /// The name a symbol designator value gives (see
    /// `name_designator_outcome`).
    pub fn name_designator_from_value(value: &Value, span: Span) -> (r: Result<String, RuntimeError>)
        ensures
            text_outcome(name_designator_outcome(*value, span), r),
    {
        let raw = match value_raw_name(value, false) {
            Some(n) => chars_of(n.as_str()),
            None => return Err(type_error("SYMBOL DESIGNATOR", value, span)),
        };
        let name = without_colon(&raw);
        if name.len() == 0 {
            return Err(invalid("symbol name cannot be empty", span));
        }
        Ok(string_from(&unqualified_text(&name)))
    }

    /// The name of a slot, given by a symbol designator.
    pub fn slot_name_from_value(value: &Value, span: Span) -> (r: Result<String, RuntimeError>)
        ensures
            text_outcome(name_designator_outcome(*value, span), r),
    {
        Self::name_designator_from_value(value, span)
    }

    /// The symbol names of a proper list of designators (see
    /// `symbol_values_outcome`).
    pub fn symbol_names_from_value(value: &Value, span: Span) -> (r: Result<Vec<String>, RuntimeError>)
        ensures
            match list_items_of(*value) {
                None => r matches Err(e) && reports(
                    e,
                    Failure::Invalid("symbol designators must be a proper list"@, span),
                ),
                Some(items) => texts_outcome(symbol_values_outcome(items, span), r),
            },
    {
        let values = match value.list_items() {
            Some(v) => v,
            None => return Err(invalid("symbol designators must be a proper list", span)),
        };
        let mut names: Vec<String> = Vec::new();
        let mut i: usize = 0;
        while i < values.len()
            invariant
                i <= values@.len(),
                list_items_of(*value) == Some(values@),
                symbol_values_outcome(values@.take(i as int), span) matches Ok(ns) && spells(names@, ns),
            decreases values.len() - i,
        {
            proof {
                assert(values@.take(i + 1).drop_last() =~= values@.take(i as int));
                assert(values@.take(i + 1).last() == values@[i as int]);
            }
            match Self::symbol_name_from_value(&values[i], span) {
                Ok(n) => {
                    names.push(n);
                },
                Err(e) => {
                    proof {
                        lemma_symbol_values_failure(values@, (i + 1) as nat, span);
                    }
                    return Err(e);
                },
            }
            i = i + 1;
        }
        proof {
            assert(values@.take(values.len() as int) =~= values@);
        }
        Ok(names)
    }
}

proof fn lemma_symbol_values_failure(items: Seq<Value>, i: nat, span: Span)
    requires
        i <= items.len(),
        symbol_values_outcome(items.take(i as int), span) is Err,
    ensures
        symbol_values_outcome(items, span) == symbol_values_outcome(items.take(i as int), span),
    decreases items.len() - i,
{
    if i < items.len() {
        assert(items.take((i + 1) as int).drop_last() =~= items.take(i as int));
        lemma_symbol_values_failure(items, i + 1, span);
    } else {
        assert(items.take(i as int) =~= items);
    }
}

/// An error message: a fixed text followed by a name.
pub fn message_with(prefix: &str, name: &Vec<char>) -> (r: String)
    ensures
        r@ == prefix@ + name@,
{
    let p = chars_of(prefix);
    string_from(&join_text(&p, name))
}

/// The canonical name of a package given by a designator value: the
/// package must exist.
pub open spec fn registry_name_outcome(ps: Seq<PackageRecord>, v: Value, span: Span) -> Result<Seq<char>, Failure> {
    match package_designator_outcome(v, span) {
        Err(f) => Err(f),
        Ok(name) => match package_index(ps, name) {
            None => Err(Failure::Package("unknown package "@ + name, span)),
            Some(i) => Ok(ps[i].name@),
        },
    }
}

/// The canonical names of a list of package designators, left to right.
pub open spec fn registry_names_outcome(ps: Seq<PackageRecord>, items: Seq<Value>, span: Span) -> Result<Seq<Seq<char>>, Failure>
    decreases items.len(),
{
    if items.len() == 0 {
        Ok(Seq::empty())
    } else {
        match registry_names_outcome(ps, items.drop_last(), span) {
            Err(f) => Err(f),
            Ok(ns) => match registry_name_outcome(ps, items.last(), span) {
                Ok(n) => Ok(ns.push(n)),
                Err(f) => Err(f),
            },
        }
    }
}

/// Where a symbol to import lives: keywords in `KEYWORD`, qualified
/// symbols in their package, others in the current package. Uninterned
/// symbols cannot be imported.
pub open spec fn import_reference_outcome(current: Seq<char>, v: Value, span: Span) -> Result<(Seq<char>, Seq<char>), Failure> {
    if v is UninternedSymbol {
        Err(Failure::Invalid("uninterned symbols cannot be imported"@, span))
    } else {
        match symbol_name_of(v) {
            None => Err(Failure::Type("SYMBOL"@, kind_name_of(v), span)),
            Some(raw) => if v is Keyword || v is KeywordExact {
                Ok((KEYWORD_PACKAGE@, normalize(raw)))
            } else {
                match split_of(raw) {
                    Some(parts) => Ok((package_name_of(parts.0), normalize(parts.1))),
                    None => Ok((current, normalize(raw))),
                }
            },
        }
    }
}

/// Import references of a list of symbols, left to right.
pub open spec fn import_references_outcome(current: Seq<char>, items: Seq<Value>, span: Span) -> Result<Seq<(Seq<char>, Seq<char>)>, Failure>
    decreases items.len(),
{
    if items.len() == 0 {
        Ok(Seq::empty())
    } else {
        match import_references_outcome(current, items.drop_last(), span) {
            Err(f) => Err(f),
            Ok(ns) => match import_reference_outcome(current, items.last(), span) {
                Ok(n) => Ok(ns.push(n)),
                Err(f) => Err(f),
            },
        }
    }
}

proof fn lemma_registry_names_failure(ps: Seq<PackageRecord>, items: Seq<Value>, i: nat, span: Span)
    requires
        i <= items.len(),
        registry_names_outcome(ps, items.take(i as int), span) is Err,
    ensures
        registry_names_outcome(ps, items, span) == registry_names_outcome(ps, items.take(i as int), span),
    decreases items.len() - i,
{
    if i < items.len() {
        assert(items.take((i + 1) as int).drop_last() =~= items.take(i as int));
        lemma_registry_names_failure(ps, items, i + 1, span);
    } else {
        assert(items.take(i as int) =~= items);
    }
}

proof fn lemma_import_references_failure(current: Seq<char>, items: Seq<Value>, i: nat, span: Span)
    requires
        i <= items.len(),
        import_references_outcome(current, items.take(i as int), span) is Err,
    ensures
        import_references_outcome(current, items, span) == import_references_outcome(current, items.take(i as int), span),
    decreases items.len() - i,
{
    if i < items.len() {
        assert(items.take((i + 1) as int).drop_last() =~= items.take(i as int));
        lemma_import_references_failure(current, items, i + 1, span);
    } else {
        assert(items.take(i as int) =~= items);
    }
}

/// Whether a symbol is internal or external to a package.
#[derive(Clone, Copy, Debug, PartialEq, Eq)]
pub enum SymbolStatus {
    Internal,
    External,
}

impl Runtime {
    /// The canonical name of an existing package given by a designator
    /// value (see `registry_name_outcome`).
    pub fn package_name_from_value(&self, value: &Value, span: Span) -> (r: Result<String, RuntimeError>)
        ensures
            text_outcome(registry_name_outcome(self.packages.packages@, *value, span), r),
    {
        let name = Self::package_designator_name(value, span)?;
        if !self.packages.package_exists(name.as_str()) {
            let v = chars_of(name.as_str());
            return Err(RuntimeError::Package { message: message_with("unknown package ", &v), span: Some(span) });
        }
        Ok(self.packages.canonical_package_name(name.as_str()))
    }

    /// The canonical names of a proper list of existing packages (see
    /// `registry_names_outcome`).
    pub fn package_names_from_value(&self, value: &Value, span: Span) -> (r: Result<Vec<String>, RuntimeError>)
        ensures
            match list_items_of(*value) {
                None => r matches Err(e) && reports(
                    e,
                    Failure::Invalid("package designators must be a proper list"@, span),
                ),
                Some(items) => texts_outcome(registry_names_outcome(self.packages.packages@, items, span), r),
            },
    {
        let values = match value.list_items() {
            Some(v) => v,
            None => return Err(invalid("package designators must be a proper list", span)),
        };
        let mut names: Vec<String> = Vec::new();
        let mut i: usize = 0;
        while i < values.len()
            invariant
                i <= values@.len(),
                list_items_of(*value) == Some(values@),
                registry_names_outcome(self.packages.packages@, values@.take(i as int), span) matches Ok(ns)
                    && spells(names@, ns),
            decreases values.len() - i,
        {
            proof {
                assert(values@.take(i + 1).drop_last() =~= values@.take(i as int));
                assert(values@.take(i + 1).last() == values@[i as int]);
            }
            match self.package_name_from_value(&values[i], span) {
                Ok(n) => {
                    names.push(n);
                },
                Err(e) => {
                    proof {
                        lemma_registry_names_failure(self.packages.packages@, values@, (i + 1) as nat, span);
                    }
                    return Err(e);
                },
            }
            i = i + 1;
        }
        proof {
            assert(values@.take(values.len() as int) =~= values@);
        }
        Ok(names)
    }

    /// Where each symbol of a proper list lives, for importing (see
    /// `import_reference_outcome`).
    pub fn symbol_import_references_from_value(&self, value: &Value, span: Span) -> (r: Result<
        Vec<(String, String)>,
        RuntimeError,
    >)
        ensures
            match list_items_of(*value) {
                None => r matches Err(e) && reports(
                    e,
                    Failure::Invalid("symbol designators must be a proper list"@, span),
                ),
                Some(items) => match import_references_outcome(self.packages.current@, items, span) {
                    Ok(ns) => r matches Ok(v) && v@.len() == ns.len() && forall|k: int|
                        0 <= k < ns.len() ==> (#[trigger] v@[k]).0@ == ns[k].0 && v@[k].1@ == ns[k].1,
                    Err(f) => r matches Err(e) && reports(e, f),
                },
            },
    {
        let values = match value.list_items() {
            Some(v) => v,
            None => return Err(invalid("symbol designators must be a proper list", span)),
        };
        let current = self.current_package();
        let mut refs: Vec<(String, String)> = Vec::new();
        let mut i: usize = 0;
        while i < values.len()
            invariant
                i <= values@.len(),
                list_items_of(*value) == Some(values@),
                current@ == self.packages.current@,
                import_references_outcome(current@, values@.take(i as int), span) matches Ok(ns)
                    && refs@.len() == ns.len() && forall|k: int|
                    0 <= k < ns.len() ==> (#[trigger] refs@[k]).0@ == ns[k].0 && refs@[k].1@ == ns[k].1,
            decreases values.len() - i,
        {
            proof {
                assert(values@.take(i + 1).drop_last() =~= values@.take(i as int));
                assert(values@.take(i + 1).last() == values@[i as int]);
            }
            let v = &values[i];
            if let Value::UninternedSymbol(_) = v {
                proof {
                    lemma_import_references_failure(current@, values@, (i + 1) as nat, span);
                }
                return Err(invalid("uninterned symbols cannot be imported", span));
            }
            let raw = match v.symbol_name() {
                Some(n) => chars_of(n.as_str()),
                None => {
                    proof {
                        lemma_import_references_failure(current@, values@, (i + 1) as nat, span);
                    }
                    return Err(type_error("SYMBOL", v, span));
                },
            };
            let is_keyword = match v {
                Value::Keyword(_) => true,
                Value::KeywordExact(_) => true,
                _ => false,
            };
            if is_keyword {
                refs.push((crate::text::owned(KEYWORD_PACKAGE), string_from(&normalize_text(&raw))));
            } else {
                match split_symbol_text(&raw) {
                    Some((p, sym, _)) => {
                        refs.push((string_from(&package_name_text(&p)), string_from(&normalize_text(&sym))));
                    },
                    None => {
                        refs.push((current.clone(), string_from(&normalize_text(&raw))));
                    },
                }
            }
            i = i + 1;
        }
        proof {
            assert(values@.take(values.len() as int) =~= values@);
        }
        Ok(refs)
    }

    /// The symbol value of a package's symbol: a keyword in `KEYWORD`, else
    /// the symbol under the name the registry gives it.
    pub fn package_symbol_value(&self, package_name: &str, symbol_name: &str) -> (r: Value)
        ensures
            ({
                let canonical = match package_index(self.packages.packages@, package_name@) {
                    Some(i) => self.packages.packages@[i].name@,
                    None => package_name@,
                };
                if canonical == KEYWORD_PACKAGE@ {
                    r matches Value::Keyword(k) && k@ == normalize(crate::text::strip_colon(symbol_name@))
                } else {
                    r matches Value::Symbol(s) && s@ == normalize(imported_name(self.packages.packages@, canonical, symbol_name@))
                }
            }),
    {
        let canonical = self.packages.canonical_package_name(package_name);
        let cv = chars_of(canonical.as_str());
        if text_is(&cv, KEYWORD_PACKAGE) {
            Value::keyword(symbol_name)
        } else {
            let name = self.packages.imported_symbol_name(canonical.as_str(), symbol_name);
            Value::symbol(name.as_str())
        }
    }

    /// The keyword that reports a symbol's status.
    pub fn symbol_status_value(status: SymbolStatus) -> (r: Value)
        ensures
            status == SymbolStatus::Internal ==> (r matches Value::Keyword(k) && k@ == normalize(crate::text::strip_colon("INTERNAL"@))),
            status == SymbolStatus::External ==> (r matches Value::Keyword(k) && k@ == normalize(crate::text::strip_colon("EXTERNAL"@))),
    {
        match status {
            SymbolStatus::Internal => Value::keyword("INTERNAL"),
            SymbolStatus::External => Value::keyword("EXTERNAL"),
        }
    }
}

} // verus!
