//! How the argument forms of a place fall into the sections of a long
//! `DEFSETF` lambda list: the arity checks, the optional arguments
//! supplied (they end at the first keyword form when there is a keyword
//! section), and the keyword pairs with the unknown-keyword check.
use vstd::prelude::*;
use crate::error::{arity, invalid, is_arity_error, is_invalid, RuntimeError};
use crate::helpers::{is_macro_keyword_form, macro_keyword_name, macro_keyword_of};
use crate::lambda_arguments::ArgumentLayout;
use crate::literals::{quoted, quoted_form_value};
use crate::printer::{decimal, decimal_text};
use crate::syntax::{normalize, normalize_name, Form, Span};
use crate::text::{chars_of, join_text, string_from, text_is};
use crate::value::{truthy, Value};

verus! {

broadcast use vstd::std_specs::vec::group_vec_axioms;

/// How many of the forms at `from, from + 1, ...` below `from + count`
/// come before the first keyword form.
pub open spec fn leading_non_keyword_forms(args: Seq<Form>, from: int, count: int) -> int
    decreases count,
{
    if count <= 0 {
        0
    } else if macro_keyword_of(args[from]) is Some {
        0
    } else {
        1 + leading_non_keyword_forms(args, from + 1, count - 1)
    }
}

/// Why the argument forms do not fit: too few (`true`) or too many.
pub open spec fn form_layout_of(args: Seq<Form>, required: int, optional: int, has_rest: bool, has_keys: bool) -> Result<
    (int, int),
    bool,
> {
    let n = args.len() as int;
    if n < required {
        Err(true)
    } else {
        let available = if n - required < optional {
            n - required
        } else {
            optional
        };
        let supplied = if has_keys {
            leading_non_keyword_forms(args, required, available)
        } else {
            available
        };
        if !has_keys && !has_rest && n > required + optional {
            Err(false)
        } else {
            Ok((supplied, required + supplied))
        }
    }
}

proof fn lemma_leading_forms_step(args: Seq<Form>, from: int, k: int)
    requires
        0 <= k,
        leading_non_keyword_forms(args, from, k) == k,
    ensures
        leading_non_keyword_forms(args, from, k + 1) == if macro_keyword_of(args[from + k]) is Some {
            k
        } else {
            k + 1
        },
    decreases k,
{
    if k > 0 {
        assert(leading_non_keyword_forms(args, from + 1, k - 1) == k - 1);
        lemma_leading_forms_step(args, from + 1, k - 1);
        assert(args[from + 1 + (k - 1)] == args[from + k]);
    } else {
        assert(leading_non_keyword_forms(args, from + 1, 0) == 0);
    }
}

proof fn lemma_leading_forms_stop(args: Seq<Form>, from: int, k: int, c: int)
    requires
        0 <= k < c,
        leading_non_keyword_forms(args, from, k) == k,
        macro_keyword_of(args[from + k]) is Some,
    ensures
        leading_non_keyword_forms(args, from, c) == k,
    decreases k,
{
    if k > 0 {
        assert(leading_non_keyword_forms(args, from + 1, k - 1) == k - 1);
        assert(args[from + 1 + (k - 1)] == args[from + k]);
        lemma_leading_forms_stop(args, from + 1, k - 1, c - 1);
    }
}

/// An expectation such as `at least 2`.
fn counted(prefix: &str, n: usize) -> (r: String)
    ensures
        r@ == prefix@ + decimal(n as int),
{
    let p = chars_of(prefix);
    let d = decimal_text(n as i128);
    string_from(&join_text(&p, &d))
}

/// The layout of the argument forms of a place whose accessor was
/// defined by a long `DEFSETF` (see `form_layout_of`); too few or too many
/// is an arity error for the accessor: `at least N`, `at most M`.
pub fn defsetf_argument_layout(
    accessor: &str,
    arguments: &[Form],
    required: usize,
    optional: usize,
    has_rest: bool,
    has_keys: bool,
) -> (r: Result<ArgumentLayout, RuntimeError>)
    requires
        required + optional <= usize::MAX,
    ensures
        match form_layout_of(arguments@, required as int, optional as int, has_rest, has_keys) {
            Ok(l) => r matches Ok(x) && x.optional_supplied == l.0 && x.key_start == l.1,
            Err(true) => r matches Err(e) && is_arity_error(
                e,
                normalize(accessor@),
                "at least "@ + decimal(required as int),
                arguments@.len(),
            ),
            Err(false) => r matches Err(e) && is_arity_error(
                e,
                normalize(accessor@),
                "at most "@ + decimal(required + optional),
                arguments@.len(),
            ),
        },
{
    let n = arguments.len();
    if n < required {
        let name = normalize_name(accessor);
        return Err(arity(name.as_str(), counted("at least ", required).as_str(), n));
    }
    let available = if n - required < optional {
        n - required
    } else {
        optional
    };
    let mut supplied: usize = available;
    if has_keys {
        let mut k: usize = 0;
        proof {
            assert(leading_non_keyword_forms(arguments@, required as int, 0) == 0);
        }
        while k < available && !is_macro_keyword_form(&arguments[required + k])
            invariant
                k <= available,
                required + available <= n,
                n == arguments@.len(),
                leading_non_keyword_forms(arguments@, required as int, k as int) == k,
            decreases available - k,
        {
            proof {
                lemma_leading_forms_step(arguments@, required as int, k as int);
            }
            k = k + 1;
        }
        proof {
            if k < available {
                lemma_leading_forms_stop(arguments@, required as int, k as int, available as int);
            }
        }
        supplied = k;
    }
    if !has_keys && !has_rest && n > required + optional {
        let name = normalize_name(accessor);
        return Err(arity(name.as_str(), counted("at most ", required + optional).as_str(), n));
    }
    Ok(ArgumentLayout { optional_supplied: supplied, key_start: required + supplied })
}

/// The keyword pairs of a long `DEFSETF` place, read from its keyword
/// argument forms: each name (normalized), the position of its value
/// form, and whether unknown keywords are accepted, or `None` when a name
/// form is no keyword.
pub open spec fn keyword_forms_of(args: Seq<Form>, allow_other_keys: bool) -> Option<(Seq<(Seq<char>, int)>, bool)>
    decreases args.len(),
{
    if args.len() < 2 {
        Some((Seq::empty(), allow_other_keys))
    } else {
        let n = args.len() - 2;
        match keyword_forms_of(args.take(n as int), allow_other_keys) {
            None => None,
            Some(p) => match macro_keyword_of(args[n as int]) {
                None => None,
                Some(k) => Some(
                    (
                        p.0.push((k, n + 1)),
                        p.1 || (k == "ALLOW-OTHER-KEYS"@ && exists|v: Value|
                            #![trigger quoted(args[n + 1], v)]
                            quoted(args[n + 1], v) && truthy(v)),
                    ),
                ),
            },
        }
    }
}

/// The first of the pairs, from the `k`-th on, whose name is neither
/// `ALLOW-OTHER-KEYS` nor one of the lambda list's keywords.
pub open spec fn first_unknown_form(pairs: Seq<(Seq<char>, int)>, keywords: Seq<Seq<char>>, k: int) -> Option<Seq<char>>
    decreases pairs.len() - k,
{
    if k < 0 || k >= pairs.len() {
        None
    } else if pairs[k].0 != "ALLOW-OTHER-KEYS"@ && !keywords.contains(pairs[k].0) {
        Some(pairs[k].0)
    } else {
        first_unknown_form(pairs, keywords, k + 1)
    }
}

/// The texts of a list of strings.
pub open spec fn keyword_texts(v: Seq<String>) -> Seq<Seq<char>> {
    Seq::new(v.len(), |i: int| v[i]@)
}

/// Whether a quoted form's value counts as true.
fn quoted_truthy(form: &Form) -> (r: bool)
    ensures
        r == exists|v: Value| #![trigger quoted(*form, v)] quoted(*form, v) && truthy(v),
{
    match quoted_form_value(form) {
        Ok(v) => {
            let t = v.is_truthy();
            proof {
                lemma_quoted_unique(*form, v);
            }
            t
        },
        Err(_) => false,
    }
}

/// A form quotes one value.
proof fn lemma_quoted_unique(form: Form, v: Value)
    requires
        quoted(form, v),
    ensures
        forall|w: Value| #[trigger] quoted(form, w) ==> truthy(w) == truthy(v),
{
    assert forall|w: Value| #[trigger] quoted(form, w) implies truthy(w) == truthy(v) by {
        crate::literals::lemma_quoted_truth(form, v, w);
    }
}

/// Whether a name is among the lambda list's keywords.
fn lists_keyword(keywords: &Vec<String>, name: &String) -> (r: bool)
    ensures
        r == keyword_texts(keywords@).contains(name@),
{
    let mut i: usize = 0;
    while i < keywords.len()
        invariant
            i <= keywords.len(),
            forall|j: int| 0 <= j < i ==> keywords@[j]@ != name@,
        decreases keywords.len() - i,
    {
        if crate::environment::same_string(&keywords[i], name) {
            assert(keyword_texts(keywords@)[i as int] == name@);
            return true;
        }
        i = i + 1;
    }
    proof {
        if keyword_texts(keywords@).contains(name@) {
            let j = choose|j: int| 0 <= j < keyword_texts(keywords@).len() && keyword_texts(keywords@)[j] == name@;
            assert(keywords@[j]@ == name@);
        }
    }
    false
}

/// Reads the keyword argument forms of a long `DEFSETF` place (see
/// `keyword_forms_of`): an odd number of forms, or a name form that is no
/// keyword, is an error; unless unknown keywords are accepted, so is the
/// first name that is not a keyword of the lambda list. Each pair gives
/// its name and the position of its value form.
pub fn defsetf_keyword_pairs(args: &[Form], allow_other_keys: bool, keywords: &Vec<String>, place_span: Span) -> (r:
    Result<Vec<(String, usize)>, RuntimeError>)
    ensures
        args@.len() % 2 != 0 ==> (r matches Err(e) && is_invalid(
            e,
            "keyword arguments must be supplied in pairs"@,
            place_span,
        )),
        args@.len() % 2 == 0 ==> match keyword_forms_of(args@, allow_other_keys) {
            None => r matches Err(RuntimeError::InvalidForm { message, .. }) && message@
                == "keyword argument name must be a keyword"@,
            Some(p) => if !p.1 && first_unknown_form(p.0, keyword_texts(keywords@), 0) is Some {
                r matches Err(e) && is_invalid(
                    e,
                    "unknown keyword :"@ + first_unknown_form(p.0, keyword_texts(keywords@), 0)->Some_0,
                    place_span,
                )
            } else {
                r matches Ok(v) && v@.len() == p.0.len() && forall|i: int|
                    0 <= i < p.0.len() ==> (#[trigger] v@[i]).0@ == p.0[i].0 && v@[i].1 == p.0[i].1
            },
        },
{
    if args.len() % 2 != 0 {
        return Err(invalid("keyword arguments must be supplied in pairs", place_span));
    }
    let mut pairs: Vec<(String, usize)> = Vec::new();
    let mut accepts = allow_other_keys;
    let mut k: usize = 0;
    while k < args.len()
        invariant
            args.len() % 2 == 0,
            k % 2 == 0,
            k <= args.len(),
            keyword_forms_of(args@.take(k as int), allow_other_keys) matches Some(p) && p.1 == accepts && pairs.len()
                == p.0.len() && forall|i: int|
                0 <= i < p.0.len() ==> (#[trigger] pairs@[i]).0@ == p.0[i].0 && pairs@[i].1 == p.0[i].1,
        decreases args.len() - k,
    {
        proof {
            assert(args@.take(k + 2).take(k as int) =~= args@.take(k as int));
            assert(args@.take(k + 2).len() - 2 == k);
            assert(args@.take(k + 2)[k as int] == args@[k as int]);
            assert(args@.take(k + 2)[k + 1] == args@[k + 1]);
        }
        let name = match macro_keyword_name(&args[k]) {
            Some(n) => n,
            None => {
                proof {
                    lemma_forms_fail_sticks(args@, allow_other_keys, (k + 2) as nat);
                }
                return Err(invalid("keyword argument name must be a keyword", args[k].span));
            },
        };
        let text = chars_of(name.as_str());
        if text_is(&text, "ALLOW-OTHER-KEYS") && quoted_truthy(&args[k + 1]) {
            accepts = true;
        }
        pairs.push((name, k + 1));
        k = k + 2;
    }
    proof {
        assert(args@.take(args.len() as int) =~= args@);
    }
    let ghost p = keyword_forms_of(args@, allow_other_keys)->Some_0;
    if !accepts {
        let ghost names = keyword_texts(keywords@);
        let mut j: usize = 0;
        while j < pairs.len()
            invariant
                j <= pairs.len(),
                !p.1,
                args@.len() % 2 == 0,
                keyword_forms_of(args@, allow_other_keys) == Some(p),
                pairs.len() == p.0.len(),
                names == keyword_texts(keywords@),
                forall|i: int| 0 <= i < p.0.len() ==> (#[trigger] pairs@[i]).0@ == p.0[i].0 && pairs@[i].1 == p.0[i].1,
                first_unknown_form(p.0, names, 0) == first_unknown_form(p.0, names, j as int),
            decreases pairs.len() - j,
        {
            let name_text = chars_of(pairs[j].0.as_str());
            if !text_is(&name_text, "ALLOW-OTHER-KEYS") && !lists_keyword(keywords, &pairs[j].0) {
                return Err(
                    RuntimeError::InvalidForm {
                        message: crate::packages::message_with("unknown keyword :", &name_text),
                        span: Some(place_span),
                    },
                );
            }
            j = j + 1;
        }
    }
    Ok(pairs)
}

/// Once a prefix of the pairs fails to read, the whole fails.
proof fn lemma_forms_fail_sticks(args: Seq<Form>, allow_other_keys: bool, n: nat)
    requires
        n <= args.len(),
        n % 2 == 0,
        args.len() % 2 == 0,
        keyword_forms_of(args.take(n as int), allow_other_keys) is None,
    ensures
        keyword_forms_of(args, allow_other_keys) is None,
    decreases args.len() - n,
{
    if n < args.len() {
        assert(args.take(n + 2 as int).take(n as int) =~= args.take(n as int));
        lemma_forms_fail_sticks(args, allow_other_keys, n + 2);
    } else {
        assert(args.take(n as int) =~= args);
    }
}

/// The position of the value form of the last pair named `name`: the
/// value a keyword parameter takes.
pub fn latest_pair(pairs: &Vec<(String, usize)>, name: &str) -> (r: Option<usize>)
    ensures
        match r {
            Some(i) => exists|k: int|
                0 <= k < pairs@.len() && pairs@[k].0@ == name@ && pairs@[k].1 == i && forall|j: int|
                    k < j < pairs@.len() ==> #[trigger] pairs@[j].0@ != name@,
            None => forall|j: int| 0 <= j < pairs@.len() ==> #[trigger] pairs@[j].0@ != name@,
        },
{
    let n = crate::text::owned(name);
    let mut k: usize = pairs.len();
    while k > 0
        invariant
            k <= pairs.len(),
            n@ == name@,
            forall|j: int| k <= j < pairs@.len() ==> #[trigger] pairs@[j].0@ != name@,
        decreases k,
    {
        if crate::environment::same_string(&pairs[k - 1].0, &n) {
            return Some(pairs[k - 1].1);
        }
        k = k - 1;
    }
    None
}

} // verus!
