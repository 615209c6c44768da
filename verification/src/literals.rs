//! What atoms denote as literals, and quoted forms as values.
use vstd::prelude::*;
use std::rc::Rc;
use crate::error::RuntimeError;
use crate::names::{package_name_of, package_name_text, qualified};
use crate::numbers::{float_syntax, i128_of, i64_of, is_float_text, parse_i128, parse_i64};
use crate::syntax::{
    after_prefix, first_marker, fold_units, has_marker, normalize, normalize_name, normalize_text,
    parse_symbol_token, token_of, units_from, Form, FormKind, SymbolTokenKind,
};
use crate::text::{
    chars_of, first_index, find_char, has_char, head_to, join_text, string_from, strip_colon,
    tail_from, text_is,
};
use crate::value::{ratio_representable, ratio_value_ok, truthy, Value};

verus! {

broadcast use vstd::std_specs::vec::group_vec_axioms;

/// What a literal atom denotes.
pub enum Literal {
    Keyword(Seq<char>),
    KeywordExact(Seq<char>),
    Nil,
    True,
    Integer(i64),
    Ratio(int, int),
    Float(Seq<char>),
}

/// The numerator and denominator texts of a ratio `n/d`, split at the first slash.
pub open spec fn ratio_parts(n: Seq<char>) -> Option<(i128, i128)> {
    match first_index(n, '/') {
        None => None,
        Some(k) => match (i128_of(n.take(k)), i128_of(n.skip(k + 1))) {
            (Some(a), Some(b)) => Some((a, b)),
            _ => None,
        },
    }
}

/// The literal an unescaped, unqualified symbol name denotes: `NIL` or `#F`,
/// `T` or `#T`, an `i64`, a ratio of two `i128`s, or a float.
pub open spec fn number_literal(n: Seq<char>) -> Option<Literal> {
    if n == "NIL"@ || n == "#F"@ {
        Some(Literal::Nil)
    } else if n == "T"@ || n == "#T"@ {
        Some(Literal::True)
    } else if i64_of(n) is Some {
        Some(Literal::Integer(i64_of(n)->0))
    } else if ratio_parts(n) is Some {
        let (a, b) = ratio_parts(n)->0;
        if ratio_representable(a as int, b as int) {
            Some(Literal::Ratio(a as int, b as int))
        } else {
            None
        }
    } else if float_syntax(n) {
        Some(Literal::Float(n))
    } else {
        None
    }
}

/// The literal an atom denotes, if any: keywords, and the constants and
/// numbers among unescaped, unqualified symbols.
pub open spec fn literal_of(s: Seq<char>) -> Option<Literal> {
    match token_of(s) {
        None => None,
        Some(t) => if t.kind == SymbolTokenKind::Keyword {
            if t.escaped {
                Some(Literal::KeywordExact(t.name))
            } else {
                Some(Literal::Keyword(normalize(strip_colon(t.name))))
            }
        } else if t.kind == SymbolTokenKind::Symbol && t.package is None && !t.escaped {
            number_literal(t.name)
        } else {
            None
        },
    }
}

/// Whether a value is the one a literal denotes.
pub open spec fn denotes(l: Literal, v: Value) -> bool {
    match l {
        Literal::Keyword(n) => v matches Value::Keyword(k) && k@ == n,
        Literal::KeywordExact(n) => v matches Value::KeywordExact(k) && k@ == n,
        Literal::Nil => v is Nil,
        Literal::True => v == Value::Boolean(true),
        Literal::Integer(i) => v == Value::Integer(i),
        Literal::Ratio(a, b) => ratio_value_ok(a, b, v),
        Literal::Float(n) => v matches Value::Float(t) && t@ == n,
    }
}

fn number_value(n: &Vec<char>) -> (r: Option<Value>)
    ensures
        match r {
            Some(v) => number_literal(n@) matches Some(l) && denotes(l, v),
            None => number_literal(n@) is None,
        },
{
    if text_is(n, "NIL") || text_is(n, "#F") {
        return Some(Value::Nil);
    }
    if text_is(n, "T") || text_is(n, "#T") {
        return Some(Value::Boolean(true));
    }
    if let Some(i) = parse_i64(n) {
        return Some(Value::Integer(i));
    }
    if let Some(k) = find_char(n, '/') {
        let a = head_to(n, k);
        let b = tail_from(n, k + 1);
        match (parse_i128(&a), parse_i128(&b)) {
            (Some(x), Some(y)) => {
                return Value::rational(x, y);
            },
            _ => {},
        }
    }
    if is_float_text(n) {
        return Some(Value::Float(string_from(n)));
    }
    None
}

/// The value a literal atom denotes (see `literal_of`); none for any other atom.
pub fn literal_atom(atom: &str) -> (r: Option<Value>)
    ensures
        match r {
            Some(v) => literal_of(atom@) matches Some(l) && denotes(l, v),
            None => literal_of(atom@) is None,
        },
{
    let token = match parse_symbol_token(atom) {
        Some(t) => t,
        None => return None,
    };
    match token.kind {
        SymbolTokenKind::Keyword => {
            if token.escaped {
                Some(Value::keyword_exact(token.name.as_str()))
            } else {
                Some(Value::keyword(token.name.as_str()))
            }
        },
        SymbolTokenKind::Symbol => {
            if token.package.is_none() && !token.escaped {
                let n = chars_of(token.name.as_str());
                number_value(&n)
            } else {
                None
            }
        },
        SymbolTokenKind::Uninterned => None,
    }
}

/// A symbol name quoted between vertical bars, with bars and backslashes
/// inside escaped by a backslash.
pub open spec fn bar_quoted(s: Seq<char>) -> Seq<char>
    decreases s.len(),
{
    if s.len() == 0 {
        seq!['|', '|']
    } else {
        let q = bar_quoted(s.drop_last());
        let c = s.last();
        let body = q.drop_last();
        if c == '|' || c == '\\' {
            body.push('\\').push(c).push('|')
        } else {
            body.push(c).push('|')
        }
    }
}

/// Quotes a symbol name between vertical bars: `a|b\c` becomes `|a\|b\\c|`.
pub fn escaped_symbol_atom(value: &str) -> (r: String)
    ensures
        r@ == bar_quoted(value@),
{
    let v = chars_of(value);
    let mut out: Vec<char> = Vec::new();
    out.push('|');
    let mut i: usize = 0;
    while i < v.len()
        invariant
            i <= v.len(),
            out@.push('|') == bar_quoted(v@.take(i as int)),
        decreases v.len() - i,
    {
        let c = v[i];
        let ghost before = out@;
        if c == '|' || c == '\\' {
            out.push('\\');
        }
        out.push(c);
        proof {
            let t = v@.take(i + 1);
            assert(t.drop_last() =~= v@.take(i as int));
            assert(t.last() == c);
            assert(bar_quoted(v@.take(i as int)).drop_last() =~= before);
            assert(out@.push('|') =~= bar_quoted(t));
        }
        i = i + 1;
    }
    out.push('|');
    proof {
        assert(v@.take(v.len() as int) =~= v@);
    }
    string_from(&out)
}

/// How an atom resolves to a symbol name: uninterned `#:NAME`, keyword
/// `:NAME`, a symbol by its (qualified) canonical name; and whether escape
/// syntax was used. Unreadable text is normalized as a whole.
pub open spec fn resolution_of(s: Seq<char>) -> (Seq<char>, bool) {
    match token_of(s) {
        None => (normalize(s), false),
        Some(t) => if t.kind == SymbolTokenKind::Uninterned {
            ("#:"@ + t.name, t.escaped)
        } else if t.kind == SymbolTokenKind::Keyword {
            (":"@ + t.name, t.escaped)
        } else {
            let name = if t.escaped {
                t.name
            } else {
                normalize(t.name)
            };
            match t.package {
                None => (name, t.escaped),
                Some(p) => (qualified(p, name), t.escaped),
            }
        },
    }
}

/// Resolves an atom to a symbol name (see `resolution_of`).
pub fn resolved_symbol(atom: &str) -> (r: (String, bool))
    ensures
        (r.0@, r.1) == resolution_of(atom@),
{
    let token = match parse_symbol_token(atom) {
        Some(t) => t,
        None => return (normalize_name(atom), false),
    };
    let name = chars_of(token.name.as_str());
    match token.kind {
        SymbolTokenKind::Uninterned => {
            let prefix = chars_of("#:");
            (string_from(&join_text(&prefix, &name)), token.escaped)
        },
        SymbolTokenKind::Keyword => {
            let prefix = chars_of(":");
            (string_from(&join_text(&prefix, &name)), token.escaped)
        },
        SymbolTokenKind::Symbol => {
            let folded = if token.escaped {
                name
            } else {
                normalize_text(&name)
            };
            match &token.package {
                None => (string_from(&folded), token.escaped),
                Some(p) => {
                    let raw = chars_of(p.as_str());
                    let pn = package_name_text(&raw);
                    let sep = chars_of("::");
                    let a = join_text(&pn, &sep);
                    (string_from(&join_text(&a, &folded)), token.escaped)
                },
            }
        },
    }
}

/// Whether `v` is the value an atom denotes when quoted: uninterned symbols,
/// keywords and qualified or escaped symbols by their token, literals by
/// what they denote, any other atom as a symbol of its normalized name.
pub open spec fn quoted_atom(s: Seq<char>, v: Value) -> bool {
    match token_of(s) {
        Some(t) => if t.kind == SymbolTokenKind::Uninterned {
            v matches Value::UninternedSymbol(n) && n@ == t.name
        } else if t.kind == SymbolTokenKind::Keyword {
            if t.escaped {
                v matches Value::KeywordExact(n) && n@ == t.name
            } else {
                v matches Value::Keyword(n) && n@ == normalize(strip_colon(t.name))
            }
        } else if t.package is Some {
            let full = normalize(t.package->0) + "::"@ + t.name;
            if t.escaped {
                v matches Value::SymbolExact(n) && n@ == full
            } else {
                v matches Value::Symbol(n) && n@ == normalize(full)
            }
        } else if t.escaped {
            v matches Value::SymbolExact(n) && n@ == t.name
        } else {
            plain_atom(s, v)
        },
        None => plain_atom(s, v),
    }
}

/// An atom that is not read as a special token: its literal, or a symbol.
pub open spec fn plain_atom(s: Seq<char>, v: Value) -> bool {
    match literal_of(s) {
        Some(l) => denotes(l, v),
        None => v matches Value::Symbol(n) && n@ == normalize(s),
    }
}

/// Whether `v` is the value of a quoted form.
pub open spec fn quoted(form: Form, v: Value) -> bool
    decreases form,
{
    match form.kind {
        FormKind::Atom(a) => quoted_atom(a@, v),
        FormKind::String(text) => v matches Value::String(t) && t@ == text@,
        FormKind::Character(c) => v == Value::Character(c),
        FormKind::List(items) => if items.len() == 0 {
            v is Nil
        } else {
            v matches Value::List(vs) && vs.len() == items.len() && forall|i: int|
                0 <= i < items.len() ==> quoted(#[trigger] items@[i], vs@[i])
        },
        FormKind::Vector(items) => v matches Value::Vector(vs) && vs.len() == items.len() && forall|i: int|
            0 <= i < items.len() ==> quoted(#[trigger] items@[i], vs@[i]),
        FormKind::DottedList { items, tail } => if items.len() == 0 {
            quoted(*tail, v)
        } else {
            ||| (v matches Value::List(vs) && quoted(*tail, Value::Nil) && vs.len() == items.len()
                && forall|i: int| 0 <= i < items.len() ==> quoted(#[trigger] items@[i], vs@[i]))
            ||| (v matches Value::DottedList { items: vs, tail: tt } && !(*tt is Nil) && quoted(
                *tail,
                *tt,
            ) && vs.len() == items.len() && forall|i: int|
                0 <= i < items.len() ==> quoted(#[trigger] items@[i], vs@[i]))
        },
    }
}

fn quoted_atom_value(atom: &String) -> (r: Value)
    ensures
        quoted_atom(atom@, r),
{
    if let Some(token) = parse_symbol_token(atom.as_str()) {
        match token.kind {
            SymbolTokenKind::Uninterned => {
                return Value::UninternedSymbol(token.name);
            },
            SymbolTokenKind::Keyword => {
                return if token.escaped {
                    Value::keyword_exact(token.name.as_str())
                } else {
                    Value::keyword(token.name.as_str())
                };
            },
            SymbolTokenKind::Symbol => {
                if let Some(package) = &token.package {
                    let raw = chars_of(package.as_str());
                    let pn = normalize_text(&raw);
                    let sep = chars_of("::");
                    let a = join_text(&pn, &sep);
                    let n = chars_of(token.name.as_str());
                    let full = string_from(&join_text(&a, &n));
                    return if token.escaped {
                        Value::symbol_exact(full.as_str())
                    } else {
                        Value::symbol(full.as_str())
                    };
                }
                if token.escaped {
                    return Value::symbol_exact(token.name.as_str());
                }
            },
        }
    }
    match literal_atom(atom.as_str()) {
        Some(v) => v,
        None => Value::symbol(atom.as_str()),
    }
}

fn quoted_items(items: &Vec<Form>) -> (r: Vec<Value>)
    ensures
        r.len() == items.len(),
        forall|i: int| 0 <= i < items.len() ==> quoted(#[trigger] items@[i], r@[i]),
    decreases items, 0nat,
{
    let mut out: Vec<Value> = Vec::new();
    let mut i: usize = 0;
    while i < items.len()
        invariant
            i <= items.len(),
            out.len() == i,
            forall|k: int| 0 <= k < i ==> quoted(#[trigger] items@[k], out@[k]),
        decreases items.len() - i,
    {
        let v = quoted_value_of(&items[i]);
        out.push(v);
        i = i + 1;
    }
    out
}

fn quoted_value_of(form: &Form) -> (r: Value)
    ensures
        quoted(*form, r),
    decreases form, 1nat,
{
    match &form.kind {
        FormKind::Atom(atom) => {
            let r = quoted_atom_value(atom);
            assert(quoted(*form, r));
            r
        },
        FormKind::String(text) => {
            let r = Value::String(text.clone());
            assert(quoted(*form, r));
            r
        },
        FormKind::Character(c) => {
            let r = Value::Character(*c);
            assert(quoted(*form, r));
            r
        },
        FormKind::List(items) => {
            let vs = quoted_items(items);
            let ghost vsv = vs@;
            let r = Value::list(vs);
            proof {
                if items.len() > 0 {
                    assert(r matches Value::List(w) && w@ == vsv);
                    assert(quoted(*form, r));
                }
            }
            r
        },
        FormKind::DottedList { items, tail } => {
            let vs = quoted_items(items);
            let t = quoted_value_of(tail);
            let ghost tv = t;
            let ghost vsv = vs@;
            let r = Value::dotted_list(vs, t);
            proof {
                assert(quoted(**tail, tv));
                if tv is Nil {
                    if items.len() > 0 {
                        assert(r matches Value::List(w) && w@ == vsv);
                    }
                } else if items.len() > 0 {
                    assert(r matches Value::DottedList { items: w, tail: tt } && w@ == vsv && *tt == tv);
                }
                assert(quoted(*form, r));
            }
            r
        },
        FormKind::Vector(items) => {
            let vs = quoted_items(items);
            let ghost vsv = vs@;
            let r = Value::vector(vs);
            proof {
                assert(r matches Value::Vector(w) && w@ == vsv);
                assert(quoted(*form, r));
            }
            r
        },
    }
}

/// The value of a quoted form (see `quoted`); quoting never fails.
/// Whatever values a form quotes agree on whether they are true.
pub proof fn lemma_quoted_truth(form: Form, v: Value, w: Value)
    requires
        quoted(form, v),
        quoted(form, w),
    ensures
        truthy(v) == truthy(w),
    decreases form,
{
    match form.kind {
        FormKind::DottedList { items, tail } => {
            if items.len() == 0 {
                lemma_quoted_truth(*tail, v, w);
            }
        },
        _ => {},
    }
}

pub fn quoted_form_value(form: &Form) -> (r: Result<Value, RuntimeError>)
    ensures
        r matches Ok(v) && quoted(*form, v),
{
    Ok(quoted_value_of(form))
}

impl crate::runtime::Runtime {
    /// `(QUOTE form)`: the value the form quotes.
    pub fn special_quote(items: &[Form]) -> (r: Result<Value, RuntimeError>)
        ensures
            items@.len() != 2 ==> (r matches Err(e) && crate::error::is_arity_error(
                e,
                "quote"@,
                "one"@,
                crate::error::operands(items@.len()),
            )),
            items@.len() == 2 ==> (r matches Ok(v) && quoted(items@[1], v)),
    {
        if items.len() != 2 {
            let count: usize = if items.len() == 0 {
                0
            } else {
                items.len() - 1
            };
            return Err(crate::error::arity("quote", "one", count));
        }
        quoted_form_value(&items[1])
    }
}

/// The text between the bars of `bar_quoted(s)`: each character of `s`,
/// a bar or backslash preceded by a backslash.
pub open spec fn bar_body(s: Seq<char>) -> Seq<char>
    decreases s.len(),
{
    if s.len() == 0 {
        Seq::empty()
    } else {
        let c = s.last();
        bar_body(s.drop_last()) + if c == '|' || c == '\\' {
            seq!['\\', c]
        } else {
            seq![c]
        }
    }
}

/// Each character of `s`, read as escaped.
pub open spec fn escaped_units(s: Seq<char>) -> Seq<(char, bool)> {
    s.map_values(|c: char| (c, true))
}

proof fn lemma_bar_quoted_shape(s: Seq<char>)
    ensures
        bar_quoted(s) == seq!['|'] + bar_body(s) + seq!['|'],
    decreases s.len(),
{
    if s.len() == 0 {
        assert(bar_quoted(s) =~= seq!['|'] + bar_body(s) + seq!['|']);
    } else {
        lemma_bar_quoted_shape(s.drop_last());
        let q = bar_quoted(s.drop_last());
        assert(q.drop_last() =~= seq!['|'] + bar_body(s.drop_last()));
        assert(bar_quoted(s) =~= seq!['|'] + bar_body(s) + seq!['|']);
    }
}

/// Reading from a position past a prefix reads the rest alone.
proof fn lemma_units_shift(p: Seq<char>, t: Seq<char>, j: int, b: bool)
    requires
        0 <= j,
    ensures
        units_from(p + t, p.len() + j, b) == units_from(t, j, b),
    decreases t.len() - j,
{
    let s = p + t;
    if j < t.len() {
        assert(s[p.len() + j] == t[j]);
        if t[j] == '\\' {
            if j + 1 < t.len() {
                assert(s[p.len() + j + 1] == t[j + 1]);
                lemma_units_shift(p, t, j + 2, b);
            }
        } else if t[j] == '|' {
            lemma_units_shift(p, t, j + 1, !b);
        } else {
            lemma_units_shift(p, t, j + 1, b);
        }
    }
}

/// Inside bars, the escaped body of `s` reads as the characters of `s`,
/// all escaped.
proof fn lemma_units_body(s: Seq<char>, t: Seq<char>)
    ensures
        units_from(bar_body(s) + t, 0, true) == after_prefix(escaped_units(s), units_from(t, 0, true)),
    decreases s.len(),
{
    if s.len() == 0 {
        assert(bar_body(s) + t =~= t);
        match units_from(t, 0, true) {
            Some(u) => assert(escaped_units(s) + u =~= u),
            None => {},
        }
    } else {
        let s0 = s.drop_last();
        let c = s.last();
        let e: Seq<char> = if c == '|' || c == '\\' {
            seq!['\\', c]
        } else {
            seq![c]
        };
        assert(bar_body(s) + t =~= bar_body(s0) + (e + t));
        lemma_units_body(s0, e + t);
        lemma_units_shift(e, t, 0, true);
        if c == '|' || c == '\\' {
            assert((e + t)[0] == '\\');
            assert((e + t)[1] == c);
            assert(units_from(e + t, 0, true) == after_prefix(seq![(c, true)], units_from(e + t, 2, true)));
        } else {
            assert((e + t)[0] == c);
            assert(units_from(e + t, 0, true) == after_prefix(seq![(c, true)], units_from(e + t, 1, true)));
        }
        match units_from(t, 0, true) {
            Some(u) => {
                assert(escaped_units(s0) + (seq![(c, true)] + u) =~= escaped_units(s) + u);
            },
            None => {},
        }
    }
}

/// Reading back a name quoted between bars gives the name itself, case
/// kept and with no package, and says that escape syntax was used: what
/// `resolved_symbol` gives on what `escaped_symbol_atom` wrote.
pub proof fn lemma_escaped_symbol_round_trip(s: Seq<char>)
    ensures
        resolution_of(bar_quoted(s)) == (s, true),
{
    lemma_bar_quoted_shape(s);
    let q = bar_quoted(s);
    let body = bar_body(s);
    let bar: Seq<char> = seq!['|'];
    assert(q =~= bar + (body + bar));
    assert(q[0] == '|');
    lemma_units_shift(bar, body + bar, 0, true);
    lemma_units_body(s, bar);
    assert(units_from(bar, 0, true) == units_from(bar, 1, false));
    assert(units_from(bar, 1, false) == Some(Seq::<(char, bool)>::empty()));
    let u = escaped_units(s);
    assert(u + Seq::<(char, bool)>::empty() =~= u);
    assert(units_from(q, 0, false) == units_from(q, 1, true));
    assert(units_from(q, 0, false) == Some(u));
    assert(!has_marker(u)) by {
        if has_marker(u) {
            let k = choose|k: int| 0 <= k < u.len() && u[k] == (':', false);
            assert(u[k].1);
        }
    }
    assert(first_marker(u) is None);
    assert(has_char(q, '|'));
    assert(fold_units(u) =~= s);
    assert(!(q.len() >= 2 && q[0] == '#'));
    assert(!(u.len() > 0 && u[0] == (':', false)));
}

} // verus!
