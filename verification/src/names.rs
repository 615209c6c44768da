//! Package-qualified names: splitting at package markers, canonical package
//! and symbol spellings, and the standard package names.
use vstd::prelude::*;
use crate::syntax::{normalize, normalize_text};
use crate::text::{
    chars_of, first_index, find_char, head_to, join_text, string_from, strip_colon, tail_from,
    text_is, without_colon,
};

verus! {

/// The package that holds keywords.
pub const KEYWORD_PACKAGE: &'static str = "KEYWORD";

/// The package of the standard language.
pub const COMMON_LISP_PACKAGE: &'static str = "COMMON-LISP";

/// The package a fresh runtime starts in.
pub const USER_PACKAGE: &'static str = "NCL-USER";

/// A qualified name split at its first colon: the package part, the symbol
/// part and whether a single colon (an external reference) was used. A name
/// without a colon, or one that starts with a colon, is not qualified.
pub open spec fn split_of(s: Seq<char>) -> Option<(Seq<char>, Seq<char>, bool)> {
    match first_index(s, ':') {
        None => None,
        Some(k) => if k == 0 {
            None
        } else if k + 1 < s.len() && s[k + 1] == ':' {
            Some((s.take(k), s.skip(k + 2), false))
        } else {
            Some((s.take(k), s.skip(k + 1), true))
        },
    }
}

/// The canonical name of a package: one leading colon dropped, the rest
/// normalized, and the standard nickname `CL` resolved.
pub open spec fn package_name_of(raw: Seq<char>) -> Seq<char> {
    let n = normalize(strip_colon(raw));
    if n == "CL"@ {
        COMMON_LISP_PACKAGE@
    } else {
        n
    }
}

/// The canonical name of a symbol within a package: the package's
/// canonical name, two colons, the symbol name.
pub open spec fn qualified(package: Seq<char>, name: Seq<char>) -> Seq<char> {
    package_name_of(package) + "::"@ + name
}

/// A name without its package prefix, after normalization.
pub open spec fn unqualified(name: Seq<char>) -> Seq<char> {
    let n = normalize(name);
    match split_of(n) {
        Some(parts) => parts.1,
        None => n,
    }
}

/// Splits a qualified name at its first colon (see `split_of`).
pub fn split_symbol_text(v: &Vec<char>) -> (r: Option<(Vec<char>, Vec<char>, bool)>)
    ensures
        match r {
            Some(p) => split_of(v@) == Some((p.0@, p.1@, p.2)),
            None => split_of(v@) is None,
        },
{
    match find_char(v, ':') {
        None => None,
        Some(k) => {
            if k == 0 {
                None
            } else if k + 1 < v.len() && v[k + 1] == ':' {
                Some((head_to(v, k), tail_from(v, k + 2), false))
            } else {
                Some((head_to(v, k), tail_from(v, k + 1), true))
            }
        },
    }
}

/// Splits a qualified name into package part, symbol part and whether the
/// reference was external (one colon).
pub fn split_symbol(name: &str) -> (r: Option<(String, String, bool)>)
    ensures
        match r {
            Some(p) => split_of(name@) == Some((p.0@, p.1@, p.2)),
            None => split_of(name@) is None,
        },
{
    let v = chars_of(name);
    match split_symbol_text(&v) {
        Some((p, s, e)) => Some((string_from(&p), string_from(&s), e)),
        None => None,
    }
}

/// The canonical name of a package (see `package_name_of`).
pub fn package_name_text(raw: &Vec<char>) -> (r: Vec<char>)
    ensures
        r@ == package_name_of(raw@),
{
    let stripped = without_colon(raw);
    let n = normalize_text(&stripped);
    if text_is(&n, "CL") {
        chars_of(COMMON_LISP_PACKAGE)
    } else {
        n
    }
}

/// The canonical name of a package given as text.
pub fn normalize_package_name(raw: &str) -> (r: String)
    ensures
        r@ == package_name_of(raw@),
{
    let v = chars_of(raw);
    let n = package_name_text(&v);
    string_from(&n)
}

/// The canonical name of a symbol given as text.
pub fn normalize_symbol_name(raw: &str) -> (r: String)
    ensures
        r@ == normalize(raw@),
{
    let v = chars_of(raw);
    let n = normalize_text(&v);
    string_from(&n)
}

/// The canonical name of a symbol of a package: `pkg`, `NAME` give `PKG::NAME`.
pub fn canonical_symbol_name(package: &str, name: &str) -> (r: String)
    ensures
        r@ == qualified(package@, name@),
{
    let raw = chars_of(package);
    let p = package_name_text(&raw);
    let sep = chars_of("::");
    let n = chars_of(name);
    let a = join_text(&p, &sep);
    let b = join_text(&a, &n);
    string_from(&b)
}

/// A normalized name without its package prefix.
pub fn unqualified_text(name: &Vec<char>) -> (r: Vec<char>)
    ensures
        r@ == unqualified(name@),
{
    let n = normalize_text(name);
    match split_symbol_text(&n) {
        Some((_, s, _)) => s,
        None => n,
    }
}

/// A normalized name without its package prefix: `pkg:nth` is `NTH`.
pub fn unqualified_name(name: &str) -> (r: String)
    ensures
        r@ == unqualified(name@),
{
    let v = chars_of(name);
    let n = unqualified_text(&v);
    string_from(&n)
}

} // verus!
