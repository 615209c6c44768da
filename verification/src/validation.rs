//! Validation of the names that binding forms introduce.
use vstd::prelude::*;
use crate::error::{invalid, is_invalid, RuntimeError};
use crate::literals::{literal_atom, literal_of};
use crate::runtime::Runtime;
use crate::syntax::{
    atom_text, normalize, normalize_text, parse_symbol_token, token_of, Form, FormKind,
    SymbolTokenKind,
};
use crate::text::{chars_of, same_ignoring_case, string_from, upcase_seq};

verus! {

/// Whether an atom can name a block, restart or condition: not empty, not a
/// lone colon, and not a literal other than a keyword, `NIL` or `T`.
pub open spec fn names_a_symbol(name: Seq<char>) -> bool {
    &&& name.len() > 0
    &&& !(name[0] == ':' && name.len() == 1)
    &&& !(name[0] != ':' && literal_of(name) is Some && upcase_seq(name) != "NIL"@ && upcase_seq(name)
        != "T"@)
}

/// A text without any leading colons.
pub open spec fn trim_colons(s: Seq<char>) -> Seq<char>
    decreases s.len(),
{
    if s.len() > 0 && s[0] == ':' {
        trim_colons(s.skip(1))
    } else {
        s
    }
}

/// The outcome of naming a block or restart with a form: its normalized
/// name, or the invalid-form error with `message` at the form.
pub open spec fn symbol_name_outcome(form: Form, message: Seq<char>, r: Result<String, RuntimeError>) -> bool {
    match atom_text(form) {
        Some(n) if names_a_symbol(n) => r matches Ok(s) && s@ == normalize(n),
        _ => r matches Err(e) && is_invalid(e, message, form.span),
    }
}

/// Whether a form names a variable, and the variable's name and whether
/// escapes were used: an unqualified or qualified symbol token that is not
/// empty, not escaped with a package, and, when unescaped, neither a lambda
/// list keyword (`&...`) nor a literal.
pub open spec fn variable_outcome(form: Form) -> Option<(Seq<char>, bool)> {
    match atom_text(form) {
        None => None,
        Some(n) => match token_of(n) {
            None => None,
            Some(t) => if t.kind != SymbolTokenKind::Symbol || t.name.len() == 0 || (t.escaped
                && t.package is Some) || (!t.escaped && (t.name[0] == '&' || literal_of(n) is Some)) {
                None
            } else if t.escaped {
                Some((t.name, true))
            } else {
                Some((normalize(n), false))
            },
        },
    }
}

fn atom_of(form: &Form) -> (r: Option<&String>)
    ensures
        match r {
            Some(s) => atom_text(*form) == Some(s@),
            None => atom_text(*form) is None,
        },
{
    match &form.kind {
        FormKind::Atom(s) => Some(s),
        _ => None,
    }
}

fn is_symbol_name(name: &String) -> (r: bool)
    ensures
        r == names_a_symbol(name@),
{
    let v = chars_of(name.as_str());
    if v.len() == 0 {
        return false;
    }
    if v[0] == ':' && v.len() == 1 {
        return false;
    }
    if v[0] != ':' && literal_atom(name.as_str()).is_some() && !same_ignoring_case(&v, "nil")
        && !same_ignoring_case(&v, "t") {
        proof {
            reveal_strlit("nil");
            reveal_strlit("t");
            reveal_strlit("NIL");
            reveal_strlit("T");
            assert(upcase_seq("nil"@) =~= "NIL"@);
            assert(upcase_seq("t"@) =~= "T"@);
        }
        return false;
    }
    proof {
        reveal_strlit("nil");
        reveal_strlit("t");
        reveal_strlit("NIL");
        reveal_strlit("T");
        assert(upcase_seq("nil"@) =~= "NIL"@);
        assert(upcase_seq("t"@) =~= "T"@);
    }
    true
}

fn named_symbol(form: &Form, message: &str) -> (r: Result<String, RuntimeError>)
    ensures
        symbol_name_outcome(*form, message@, r),
{
    let name = match atom_of(form) {
        Some(n) => n,
        None => return Err(invalid(message, form.span)),
    };
    if !is_symbol_name(name) {
        return Err(invalid(message, form.span));
    }
    let v = chars_of(name.as_str());
    Ok(string_from(&normalize_text(&v)))
}

pub fn without_colons(v: &Vec<char>) -> (r: Vec<char>)
    ensures
        r@ == trim_colons(v@),
{
    let mut i: usize = 0;
    proof {
        assert(v@.skip(0) =~= v@);
    }
    while i < v.len() && v[i] == ':'
        invariant
            i <= v.len(),
            trim_colons(v@) == trim_colons(v@.skip(i as int)),
        decreases v.len() - i,
    {
        proof {
            assert(v@.skip(i as int).skip(1) =~= v@.skip(i + 1));
        }
        i = i + 1;
    }
    crate::text::tail_from(v, i)
}

impl Runtime {
    /// The name of a block: a symbol-like atom, normalized.
    pub fn block_name(form: &Form) -> (r: Result<String, RuntimeError>)
        ensures
            symbol_name_outcome(*form, "block name must be a symbol"@, r),
    {
        named_symbol(form, "block name must be a symbol")
    }

    /// The name of a restart: a symbol-like atom, normalized.
    pub fn restart_name(form: &Form) -> (r: Result<String, RuntimeError>)
        ensures
            symbol_name_outcome(*form, "restart name must be a symbol"@, r),
    {
        named_symbol(form, "restart name must be a symbol")
    }

    /// The name of a condition type: a symbol-like atom, normalized, without
    /// leading colons.
    pub fn condition_name(form: &Form) -> (r: Result<String, RuntimeError>)
        ensures
            match atom_text(*form) {
                Some(n) if names_a_symbol(n) => r matches Ok(s) && s@ == trim_colons(normalize(n)),
                _ => r matches Err(e) && is_invalid(e, "condition name must be a symbol"@, form.span),
            },
    {
        let message = "condition name must be a symbol";
        let name = match atom_of(form) {
            Some(n) => n,
            None => return Err(invalid(message, form.span)),
        };
        if !is_symbol_name(name) {
            return Err(invalid(message, form.span));
        }
        let v = chars_of(name.as_str());
        let n = normalize_text(&v);
        Ok(string_from(&without_colons(&n)))
    }

    /// The name of a variable and whether escapes were used (see
    /// `variable_outcome`); otherwise the invalid-form error `context`.
    pub fn variable_name_info(form: &Form, context: &str) -> (r: Result<(String, bool), RuntimeError>)
        ensures
            match variable_outcome(*form) {
                Some(p) => r matches Ok(q) && q.0@ == p.0 && q.1 == p.1,
                None => r matches Err(e) && is_invalid(e, context@, form.span),
            },
    {
        let name = match atom_of(form) {
            Some(n) => n,
            None => return Err(invalid(context, form.span)),
        };
        let token = match parse_symbol_token(name.as_str()) {
            Some(t) => t,
            None => return Err(invalid(context, form.span)),
        };
        let tn = chars_of(token.name.as_str());
        let bad_kind = match token.kind {
            SymbolTokenKind::Symbol => false,
            _ => true,
        };
        if bad_kind || tn.len() == 0 || (token.escaped && token.package.is_some()) {
            return Err(invalid(context, form.span));
        }
        if !token.escaped && (tn[0] == '&' || literal_atom(name.as_str()).is_some()) {
            return Err(invalid(context, form.span));
        }
        if token.escaped {
            Ok((token.name, true))
        } else {
            let v = chars_of(name.as_str());
            Ok((string_from(&normalize_text(&v)), false))
        }
    }

    /// The name of a variable (see `variable_name_info`).
    pub fn variable_name(form: &Form, context: &str) -> (r: Result<String, RuntimeError>)
        ensures
            match variable_outcome(*form) {
                Some(p) => r matches Ok(q) && q@ == p.0,
                None => r matches Err(e) && is_invalid(e, context@, form.span),
            },
    {
        match Self::variable_name_info(form, context) {
            Ok((name, _)) => Ok(name),
            Err(e) => Err(e),
        }
    }
}

} // verus!
