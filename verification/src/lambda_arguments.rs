//! How a call's arguments fall into the sections of a lambda list
//! (required, optional, rest, keyword), as structure constructors with a
//! "by order of arguments" lambda list and long `DEFSETF` forms bind them:
//! the arity checks, the optional arguments supplied, keyword pairs,
//! unknown keywords and which supplied value a keyword parameter takes.
use vstd::prelude::*;
use crate::error::{arity, invalid, is_arity_error, is_invalid, RuntimeError};
use crate::printer::{decimal, decimal_text};
use crate::runtime::Runtime;
use crate::syntax::{normalize, normalize_name, Span};
use crate::text::{chars_of, join_text, string_from};
use crate::value::{truthy, Value};

verus! {

/// Where the sections of a call's arguments start: how many optional
/// arguments were supplied, and where the rest and keyword arguments begin.
#[derive(Clone, Copy, Debug, PartialEq, Eq)]
pub struct ArgumentLayout {
    pub optional_supplied: usize,
    pub key_start: usize,
}

/// Why the arguments do not fit the lambda list.
#[derive(Clone, Copy, Debug, PartialEq, Eq)]
pub enum ArgumentShapeFailure {
    TooFew,
    TooMany,
}

/// Whether an argument value is a keyword.
pub open spec fn is_keyword_value(v: Value) -> bool {
    v is Keyword || v is KeywordExact
}

/// How many of the positions `from, from + 1, ...` below `from + count`
/// hold a non-keyword before the first keyword.
pub open spec fn leading_non_keywords(args: Seq<Value>, from: int, count: int) -> int
    decreases count,
{
    if count <= 0 {
        0
    } else if is_keyword_value(args[from]) {
        0
    } else {
        1 + leading_non_keywords(args, from + 1, count - 1)
    }
}

/// The layout of `args` for a lambda list with `required` required and
/// `optional` optional parameters, a rest parameter or not, a keyword
/// section or not. With a keyword section, the optional arguments end at
/// the first keyword.
pub open spec fn layout_of(args: Seq<Value>, required: int, optional: int, has_rest: bool, has_keys: bool) -> Result<
    (int, int),
    ArgumentShapeFailure,
> {
    let n = args.len() as int;
    if n < required {
        Err(ArgumentShapeFailure::TooFew)
    } else {
        let available = if n - required < optional {
            n - required
        } else {
            optional
        };
        let supplied = if has_keys {
            leading_non_keywords(args, required, available)
        } else {
            available
        };
        if !has_keys && !has_rest && n > required + optional {
            Err(ArgumentShapeFailure::TooMany)
        } else {
            Ok((supplied, required + supplied))
        }
    }
}

proof fn lemma_leading_bounds(args: Seq<Value>, from: int, count: int)
    ensures
        0 <= leading_non_keywords(args, from, count),
        count >= 0 ==> leading_non_keywords(args, from, count) <= count,
    decreases count,
{
    if count > 0 && !is_keyword_value(args[from]) {
        lemma_leading_bounds(args, from + 1, count - 1);
    }
}

proof fn lemma_leading_step(args: Seq<Value>, from: int, k: int)
    requires
        0 <= k,
        leading_non_keywords(args, from, k) == k,
    ensures
        leading_non_keywords(args, from, k + 1) == if is_keyword_value(args[from + k]) {
            k
        } else {
            k + 1
        },
    decreases k,
{
    if k > 0 {
        assert(!is_keyword_value(args[from]));
        assert(leading_non_keywords(args, from + 1, k - 1) == k - 1);
        lemma_leading_step(args, from + 1, k - 1);
        assert(args[from + 1 + (k - 1)] == args[from + k]);
        assert(leading_non_keywords(args, from, k + 1) == 1 + leading_non_keywords(args, from + 1, k));
    } else {
        assert(leading_non_keywords(args, from + 1, 0) == 0);
    }
}

proof fn lemma_leading_stops(args: Seq<Value>, from: int, k: int, c: int)
    requires
        0 <= k < c,
        leading_non_keywords(args, from, k) == k,
        is_keyword_value(args[from + k]),
    ensures
        leading_non_keywords(args, from, c) == k,
    decreases k,
{
    if k > 0 {
        assert(!is_keyword_value(args[from]));
        assert(leading_non_keywords(args, from + 1, k - 1) == k - 1);
        assert(args[from + 1 + (k - 1)] == args[from + k]);
        lemma_leading_stops(args, from + 1, k - 1, c - 1);
    }
}

/// The layout of a call's arguments (see `layout_of`).
pub fn argument_layout(args: &[Value], required: usize, optional: usize, has_rest: bool, has_keys: bool) -> (r:
    Result<ArgumentLayout, ArgumentShapeFailure>)
    ensures
        match layout_of(args@, required as int, optional as int, has_rest, has_keys) {
            Ok(l) => r matches Ok(x) && x.optional_supplied == l.0 && x.key_start == l.1,
            Err(f) => r == Err::<ArgumentLayout, ArgumentShapeFailure>(f),
        },
{
    let n = args.len();
    if n < required {
        return Err(ArgumentShapeFailure::TooFew);
    }
    let available = if n - required < optional {
        n - required
    } else {
        optional
    };
    let mut supplied: usize = available;
    if has_keys {
        let mut k: usize = 0;
        let mut stopped = false;
        while k < available
            invariant_except_break
                !stopped,
                leading_non_keywords(args@, required as int, k as int) == k,
            invariant
                k <= available,
                required + available <= n,
                n == args.len(),
            ensures
                stopped ==> leading_non_keywords(args@, required as int, available as int) == k,
                stopped ==> k < available,
                !stopped ==> k == available && leading_non_keywords(args@, required as int, available as int) == k,
            decreases available - k,
        {
            proof {
                lemma_leading_step(args@, required as int, k as int);
            }
            if matches!(args[required + k], Value::Keyword(_) | Value::KeywordExact(_)) {
                proof {
                    lemma_leading_stops(args@, required as int, k as int, available as int);
                }
                stopped = true;
                break;
            }
            k = k + 1;
        }
        supplied = k;
    }
    proof {
        lemma_leading_bounds(args@, required as int, available as int);
    }
    if !has_keys && !has_rest && n - required > optional {
        return Err(ArgumentShapeFailure::TooMany);
    }
    Ok(ArgumentLayout { optional_supplied: supplied, key_start: required + supplied })
}

/// `prefix` followed by the decimal text of `n`.
fn counted(prefix: &str, n: usize) -> (r: String)
    ensures
        r@ == prefix@ + decimal(n as int),
{
    let p = chars_of(prefix);
    let d = decimal_text(n as i128);
    string_from(&join_text(&p, &d))
}

/// The expectation a structure constructor reports for too few
/// arguments: `at least N` when more may follow, else `N`.
pub open spec fn too_few_expected(required: int, more: bool) -> Seq<char> {
    if more {
        "at least "@ + decimal(required)
    } else {
        decimal(required)
    }
}

/// The expectation a structure constructor reports for too many
/// arguments: `at most M` when optional parameters exist, else `M`.
pub open spec fn too_many_expected(maximum: int, has_optional: bool) -> Seq<char> {
    if has_optional {
        "at most "@ + decimal(maximum)
    } else {
        decimal(maximum)
    }
}

impl Runtime {
    /// The layout of a structure constructor's arguments; an arity error
    /// for `structure constructor` when they do not fit.
    pub fn structure_constructor_layout(
        arguments: &[Value],
        required: usize,
        optional: usize,
        has_rest: bool,
        has_keys: bool,
    ) -> (r: Result<ArgumentLayout, RuntimeError>)
        requires
            required + optional <= usize::MAX,
        ensures
            match layout_of(arguments@, required as int, optional as int, has_rest, has_keys) {
                Ok(l) => r matches Ok(x) && x.optional_supplied == l.0 && x.key_start == l.1,
                Err(ArgumentShapeFailure::TooFew) => r matches Err(e) && is_arity_error(
                    e,
                    "structure constructor"@,
                    too_few_expected(required as int, optional > 0 || has_rest || has_keys),
                    arguments@.len(),
                ),
                Err(ArgumentShapeFailure::TooMany) => r matches Err(e) && is_arity_error(
                    e,
                    "structure constructor"@,
                    too_many_expected(required + optional, optional > 0),
                    arguments@.len(),
                ),
            },
    {
        match argument_layout(arguments, required, optional, has_rest, has_keys) {
            Ok(layout) => Ok(layout),
            Err(ArgumentShapeFailure::TooFew) => {
                let expected = if optional > 0 || has_rest || has_keys {
                    counted("at least ", required)
                } else {
                    counted("", required)
                };
                proof {
                    reveal_strlit("");
                    assert(""@ + decimal(required as int) =~= decimal(required as int));
                }
                Err(arity("structure constructor", expected.as_str(), arguments.len()))
            },
            Err(ArgumentShapeFailure::TooMany) => {
                let maximum = required + optional;
                let expected = if optional > 0 {
                    counted("at most ", maximum)
                } else {
                    counted("", maximum)
                };
                proof {
                    reveal_strlit("");
                    assert(""@ + decimal(maximum as int) =~= decimal(maximum as int));
                }
                Err(arity("structure constructor", expected.as_str(), arguments.len()))
            },
        }
    }
}

/// The keyword arguments of a call read as (name, value) pairs, and
/// whether unknown keywords are accepted: by the lambda list, or by an
/// `:allow-other-keys` argument with a true value.
pub open spec fn keyword_pairs_of(args: Seq<Value>, allow_other_keys: bool) -> Option<(Seq<(Seq<char>, Value)>, bool)>
    decreases args.len(),
{
    if args.len() % 2 != 0 {
        None
    } else if args.len() == 0 {
        Some((Seq::empty(), allow_other_keys))
    } else {
        match keyword_pairs_of(args.take(args.len() - 2), allow_other_keys) {
            None => None,
            Some(p) => match args[args.len() - 2] {
                Value::Keyword(k) => Some(
                    (
                        p.0.push((k@, args[args.len() - 1])),
                        p.1 || (normalize(k@) == "ALLOW-OTHER-KEYS"@ && truthy(args[args.len() - 1])),
                    ),
                ),
                Value::KeywordExact(k) => Some(
                    (
                        p.0.push((k@, args[args.len() - 1])),
                        p.1 || (normalize(k@) == "ALLOW-OTHER-KEYS"@ && truthy(args[args.len() - 1])),
                    ),
                ),
                _ => None,
            },
        }
    }
}

/// A keyword argument as supplied: its name and value.
pub struct SuppliedKeyword {
    pub name: String,
    pub value: Value,
}

/// Reads keyword arguments (see `keyword_pairs_of`): an odd number of
/// them, or a name that is no keyword, is an error.
pub fn keyword_arguments(args: &[Value], allow_other_keys: bool, span: Span) -> (r: Result<
    (Vec<SuppliedKeyword>, bool),
    RuntimeError,
>)
    ensures
        match keyword_pairs_of(args@, allow_other_keys) {
            Some(p) => r matches Ok(q) && q.1 == p.1 && q.0.len() == p.0.len() && forall|i: int|
                0 <= i < p.0.len() ==> (#[trigger] q.0@[i]).name@ == p.0[i].0 && q.0@[i].value == p.0[i].1,
            None => r matches Err(e) && (if args@.len() % 2 != 0 {
                is_invalid(e, "keyword arguments must be supplied in pairs"@, span)
            } else {
                is_invalid(e, "keyword argument name must be a keyword"@, span)
            }),
        },
{
    if args.len() % 2 != 0 {
        return Err(invalid("keyword arguments must be supplied in pairs", span));
    }
    let mut pairs: Vec<SuppliedKeyword> = Vec::new();
    let mut accepts = allow_other_keys;
    let mut k: usize = 0;
    while k < args.len()
        invariant
            args.len() % 2 == 0,
            k % 2 == 0,
            k <= args.len(),
            keyword_pairs_of(args@.take(k as int), allow_other_keys) matches Some(p) && p.1 == accepts
                && pairs.len() == p.0.len() && forall|i: int|
                0 <= i < p.0.len() ==> (#[trigger] pairs@[i]).name@ == p.0[i].0 && pairs@[i].value == p.0[i].1,
        decreases args.len() - k,
    {
        let ghost before = args@.take(k as int);
        assert(args@.take(k + 2).take(k as int) =~= before);
        assert(args@.take(k + 2).len() - 2 == k);
        let name = match &args[k] {
            Value::Keyword(n) => n.clone(),
            Value::KeywordExact(n) => n.clone(),
            _ => {
                proof {
                    lemma_pairs_fail_sticks(args@, allow_other_keys, (k + 2) as nat);
                }
                return Err(invalid("keyword argument name must be a keyword", span));
            },
        };
        let value = args[k + 1].clone();
        let n = normalize_name(name.as_str());
        let allows = crate::text::same_text(&chars_of(n.as_str()), &chars_of("ALLOW-OTHER-KEYS")) && value.is_truthy();
        if allows {
            accepts = true;
        }
        pairs.push(SuppliedKeyword { name, value });
        k = k + 2;
    }
    assert(args@.take(args.len() as int) =~= args@);
    Ok((pairs, accepts))
}

/// Once a prefix of the pairs fails to read, the whole fails.
proof fn lemma_pairs_fail_sticks(args: Seq<Value>, allow_other_keys: bool, n: nat)
    requires
        n <= args.len(),
        n % 2 == 0,
        args.len() % 2 == 0,
        keyword_pairs_of(args.take(n as int), allow_other_keys) is None,
    ensures
        keyword_pairs_of(args, allow_other_keys) is None,
    decreases args.len() - n,
{
    if n < args.len() {
        assert(args.take(n + 2 as int).take(n as int) =~= args.take(n as int));
        lemma_pairs_fail_sticks(args, allow_other_keys, n + 2);
    } else {
        assert(args.take(n as int) =~= args);
    }
}

/// Whether a supplied keyword name matches a keyword parameter: exactly
/// for an escaped parameter name, after normalizing both otherwise.
pub open spec fn keyword_matches(parameter: Seq<char>, escaped: bool, actual: Seq<char>) -> bool {
    if escaped {
        parameter == actual
    } else {
        normalize(parameter) == normalize(actual)
    }
}

/// A keyword parameter's keyword name, and whether it was escaped.
pub struct KeywordParameter {
    pub keyword_name: String,
    pub keyword_name_escaped: bool,
}

/// Whether a keyword name matches a keyword parameter (see `keyword_matches`).
pub fn keyword_name_matches(parameter: &KeywordParameter, actual: &String) -> (r: bool)
    ensures
        r == keyword_matches(parameter.keyword_name@, parameter.keyword_name_escaped, actual@),
{
    if parameter.keyword_name_escaped {
        crate::environment::same_string(&parameter.keyword_name, actual)
    } else {
        let a = normalize_name(parameter.keyword_name.as_str());
        let b = normalize_name(actual.as_str());
        crate::environment::same_string(&a, &b)
    }
}

/// Whether a supplied keyword is known: `:allow-other-keys`, or a keyword
/// some parameter matches.
pub open spec fn known_keyword(parameters: Seq<KeywordParameter>, name: Seq<char>) -> bool {
    normalize(name) == "ALLOW-OTHER-KEYS"@ || exists|j: int|
        0 <= j < parameters.len() && #[trigger] keyword_matches(
            parameters[j].keyword_name@,
            parameters[j].keyword_name_escaped,
            name,
        )
}

/// The first supplied keyword that no parameter knows.
pub open spec fn first_unknown(parameters: Seq<KeywordParameter>, supplied: Seq<SuppliedKeyword>, k: int) -> Option<int>
    decreases supplied.len() - k,
{
    if k < 0 || k >= supplied.len() {
        None
    } else if !known_keyword(parameters, supplied[k].name@) {
        Some(k)
    } else {
        first_unknown(parameters, supplied, k + 1)
    }
}

/// Whether a keyword is known to the parameters.
fn is_known_keyword(parameters: &Vec<KeywordParameter>, name: &String) -> (r: bool)
    ensures
        r == known_keyword(parameters@, name@),
{
    let n = normalize_name(name.as_str());
    if crate::text::same_text(&chars_of(n.as_str()), &chars_of("ALLOW-OTHER-KEYS")) {
        return true;
    }
    let mut j: usize = 0;
    while j < parameters.len()
        invariant
            j <= parameters.len(),
            normalize(name@) != "ALLOW-OTHER-KEYS"@,
            forall|i: int|
                0 <= i < j ==> !#[trigger] keyword_matches(
                    parameters@[i].keyword_name@,
                    parameters@[i].keyword_name_escaped,
                    name@,
                ),
        decreases parameters.len() - j,
    {
        if keyword_name_matches(&parameters[j], name) {
            return true;
        }
        j = j + 1;
    }
    false
}

/// Unless unknown keywords are accepted, the first supplied keyword that
/// no parameter knows is an error: `unknown keyword :NAME`.
pub fn check_unknown_keywords(
    parameters: &Vec<KeywordParameter>,
    supplied: &Vec<SuppliedKeyword>,
    accepts_unknown: bool,
    span: Span,
) -> (r: Result<(), RuntimeError>)
    ensures
        accepts_unknown ==> r is Ok,
        !accepts_unknown ==> match first_unknown(parameters@, supplied@, 0) {
            Some(k) => r matches Err(e) && is_invalid(e, "unknown keyword :"@ + supplied@[k].name@, span),
            None => r is Ok,
        },
{
    if accepts_unknown {
        return Ok(());
    }
    let mut k: usize = 0;
    while k < supplied.len()
        invariant
            !accepts_unknown,
            k <= supplied.len(),
            first_unknown(parameters@, supplied@, 0) == first_unknown(parameters@, supplied@, k as int),
        decreases supplied.len() - k,
    {
        if !is_known_keyword(parameters, &supplied[k].name) {
            let name = chars_of(supplied[k].name.as_str());
            return Err(
                RuntimeError::InvalidForm {
                    message: crate::packages::message_with("unknown keyword :", &name),
                    span: Some(span),
                },
            );
        }
        k = k + 1;
    }
    Ok(())
}

/// The value a keyword parameter takes: that of the last supplied keyword
/// matching it.
pub open spec fn latest_supplied(parameter: KeywordParameter, supplied: Seq<SuppliedKeyword>, n: int) -> Option<int>
    decreases n,
{
    if n <= 0 {
        None
    } else if keyword_matches(parameter.keyword_name@, parameter.keyword_name_escaped, supplied[n - 1].name@) {
        Some(n - 1)
    } else {
        latest_supplied(parameter, supplied, n - 1)
    }
}

/// The value a keyword parameter takes, if supplied (see `latest_supplied`).
pub fn supplied_keyword_value(parameter: &KeywordParameter, supplied: &Vec<SuppliedKeyword>) -> (r: Option<Value>)
    ensures
        match latest_supplied(*parameter, supplied@, supplied@.len() as int) {
            Some(k) => r == Some(supplied@[k].value),
            None => r is None,
        },
{
    let mut n: usize = supplied.len();
    while n > 0
        invariant
            n <= supplied.len(),
            latest_supplied(*parameter, supplied@, supplied@.len() as int) == latest_supplied(
                *parameter,
                supplied@,
                n as int,
            ),
        decreases n,
    {
        if keyword_name_matches(parameter, &supplied[n - 1].name) {
            return Some(supplied[n - 1].value.clone());
        }
        n = n - 1;
    }
    None
}

} // verus!
