//! How `CASE`, `ECASE`, `TYPECASE` and `ETYPECASE` choose a clause once
//! their key is evaluated. Clauses are looked at in order; a `T` or
//! `OTHERWISE` clause is remembered (the last one wins) and the scan goes
//! on; the first clause one of whose keys the test accepts is taken.
use vstd::prelude::*;
use crate::error::{invalid, is_invalid, RuntimeError};
use crate::helpers::{case_default_of, is_case_default_form};
use crate::literals::{quoted, quoted_form_value};
use crate::runtime::Runtime;
use crate::syntax::{Form, FormKind, Span};
use crate::value::Value;

verus! {

/// The clause a `CASE`-like form takes: a keyed clause, the last default
/// clause when no key matched, or none.
#[derive(Clone, Copy, Debug, PartialEq, Eq)]
pub enum CaseChoice {
    Clause(usize),
    Default(usize),
    Miss,
}

/// The parts of a clause that is a list.
pub open spec fn clause_parts(f: Form) -> Option<Seq<Form>> {
    match f.kind {
        FormKind::List(parts) => Some(parts@),
        _ => None,
    }
}

/// The key forms of a clause's head: with several keys (`CASE`), a list
/// head holds them and any other head is the one key; otherwise (the type
/// of `TYPECASE`) the head is the one key.
pub open spec fn head_keys(head: Form, several: bool) -> Seq<Form> {
    if several {
        match head.kind {
            FormKind::List(keys) => keys@,
            _ => seq![head],
        }
    } else {
        seq![head]
    }
}

/// The test gave answer `a` for the value a key form quotes.
pub open spec fn answered<F: Fn(&Value) -> Result<bool, RuntimeError>>(
    test: F,
    key: Form,
    a: Result<bool, RuntimeError>,
) -> bool {
    exists|v: Value| #![trigger quoted(key, v)] quoted(key, v) && test.ensures((&v,), a)
}

/// The test rejected each of the first `n` keys.
pub open spec fn keys_missed<F: Fn(&Value) -> Result<bool, RuntimeError>>(test: F, keys: Seq<Form>, n: int) -> bool {
    forall|k: int| 0 <= k < n ==> #[trigger] answered(test, keys[k], Ok(false))
}

/// Whether a clause is a default clause.
pub open spec fn clause_default(f: Form) -> bool {
    clause_parts(f) matches Some(p) && p.len() > 0 && case_default_of(p[0])
}

/// A clause the scan went past: a well-formed default clause, or one
/// whose keys the test all rejected.
pub open spec fn clause_passed<F: Fn(&Value) -> Result<bool, RuntimeError>>(test: F, f: Form, several: bool) -> bool {
    clause_parts(f) matches Some(p) && p.len() > 0 && (case_default_of(p[0]) || keys_missed(
        test,
        head_keys(p[0], several),
        head_keys(p[0], several).len() as int,
    ))
}

/// The scan went past the first `n` clauses.
pub open spec fn clauses_passed<F: Fn(&Value) -> Result<bool, RuntimeError>>(
    test: F,
    clauses: Seq<Form>,
    n: int,
    several: bool,
) -> bool {
    forall|c: int| 0 <= c < n ==> #[trigger] clause_passed(test, clauses[c], several)
}

/// A clause the test took: one of its keys was accepted after the keys
/// before it were rejected.
pub open spec fn clause_taken<F: Fn(&Value) -> Result<bool, RuntimeError>>(test: F, f: Form, several: bool) -> bool {
    clause_parts(f) matches Some(p) && p.len() > 0 && !case_default_of(p[0]) && exists|k: int|
        0 <= k < head_keys(p[0], several).len() && keys_missed(test, head_keys(p[0], several), k)
            && #[trigger] answered(test, head_keys(p[0], several)[k], Ok(true))
}

/// The last default clause among the first `n`.
pub open spec fn last_default(clauses: Seq<Form>, n: int) -> Option<int>
    decreases n,
{
    if n <= 0 {
        None
    } else if clause_default(clauses[n - 1]) {
        Some(n - 1)
    } else {
        last_default(clauses, n - 1)
    }
}

/// The error a clause stops the scan with: not a list, empty, or a call
/// of the test failing after the keys before it were rejected.
pub open spec fn clause_failed<F: Fn(&Value) -> Result<bool, RuntimeError>>(
    test: F,
    f: Form,
    several: bool,
    e: RuntimeError,
    not_list: Seq<char>,
    empty: Seq<char>,
) -> bool {
    match clause_parts(f) {
        None => is_invalid(e, not_list, f.span),
        Some(p) => if p.len() == 0 {
            is_invalid(e, empty, f.span)
        } else {
            !case_default_of(p[0]) && exists|k: int|
                0 <= k < head_keys(p[0], several).len() && keys_missed(test, head_keys(p[0], several), k)
                    && #[trigger] answered(test, head_keys(p[0], several)[k], Err::<bool, RuntimeError>(e))
        },
    }
}

/// `r` is a choice the scan can make (see `clause_choice`).
pub open spec fn chose<F: Fn(&Value) -> Result<bool, RuntimeError>>(
    test: F,
    clauses: Seq<Form>,
    several: bool,
    not_list: Seq<char>,
    empty: Seq<char>,
    r: Result<CaseChoice, RuntimeError>,
) -> bool {
    &&& r matches Ok(CaseChoice::Clause(i)) ==> i < clauses.len() && clauses_passed(test, clauses, i as int, several)
        && clause_taken(test, clauses[i as int], several)
    &&& r matches Ok(CaseChoice::Default(d)) ==> clauses_passed(test, clauses, clauses.len() as int, several)
        && last_default(clauses, clauses.len() as int) == Some(d as int)
    &&& r matches Ok(CaseChoice::Miss) ==> clauses_passed(test, clauses, clauses.len() as int, several)
        && last_default(clauses, clauses.len() as int) is None
    &&& r matches Err(e) ==> exists|c: int|
        0 <= c < clauses.len() && clauses_passed(test, clauses, c, several) && #[trigger] clause_failed(
            test,
            clauses[c],
            several,
            e,
            not_list,
            empty,
        )
}

/// Asks the test about each key in turn; true at the first accepted one.
fn scan_keys<F: Fn(&Value) -> Result<bool, RuntimeError>>(keys: &Vec<Form>, test: &F) -> (r: Result<bool, RuntimeError>)
    requires
        forall|v: &Value| test.requires((v,)),
    ensures
        r matches Ok(true) ==> exists|k: int|
            0 <= k < keys@.len() && keys_missed(*test, keys@, k) && #[trigger] answered(*test, keys@[k], Ok(true)),
        r matches Ok(false) ==> keys_missed(*test, keys@, keys@.len() as int),
        r matches Err(e) ==> exists|k: int|
            0 <= k < keys@.len() && keys_missed(*test, keys@, k) && #[trigger] answered(
                *test,
                keys@[k],
                Err::<bool, RuntimeError>(e),
            ),
{
    let mut k: usize = 0;
    while k < keys.len()
        invariant
            k <= keys.len(),
            forall|v: &Value| test.requires((v,)),
            keys_missed(*test, keys@, k as int),
        decreases keys.len() - k,
    {
        let candidate = match quoted_form_value(&keys[k]) {
            Ok(v) => v,
            Err(e) => return Err(e),
        };
        let answer = test(&candidate);
        proof {
            assert(quoted(keys@[k as int], candidate));
        }
        match answer {
            Ok(true) => {
                assert(answered(*test, keys@[k as int], Ok(true)));
                return Ok(true);
            },
            Ok(false) => {
                assert(answered(*test, keys@[k as int], Ok(false)));
            },
            Err(e) => {
                assert(answered(*test, keys@[k as int], Err::<bool, RuntimeError>(e)));
                return Err(e);
            },
        }
        k = k + 1;
    }
    Ok(false)
}

/// Asks the test about a clause's keys (see `head_keys`).
fn clause_keys_hit<F: Fn(&Value) -> Result<bool, RuntimeError>>(head: &Form, several: bool, test: &F) -> (r: Result<
    bool,
    RuntimeError,
>)
    requires
        forall|v: &Value| test.requires((v,)),
    ensures
        r matches Ok(true) ==> exists|k: int|
            0 <= k < head_keys(*head, several).len() && keys_missed(*test, head_keys(*head, several), k)
                && #[trigger] answered(*test, head_keys(*head, several)[k], Ok(true)),
        r matches Ok(false) ==> keys_missed(*test, head_keys(*head, several), head_keys(*head, several).len() as int),
        r matches Err(e) ==> exists|k: int|
            0 <= k < head_keys(*head, several).len() && keys_missed(*test, head_keys(*head, several), k)
                && #[trigger] answered(*test, head_keys(*head, several)[k], Err::<bool, RuntimeError>(e)),
{
    if several {
        match &head.kind {
            FormKind::List(keys) => {
                assert(head_keys(*head, several) == keys@);
                let r = scan_keys(keys, test);
                proof {
                    if r matches Ok(true) {
                        let k = choose|k: int|
                            0 <= k < keys@.len() && keys_missed(*test, keys@, k) && #[trigger] answered(*test, keys@[k], Ok(true));
                        assert(answered(*test, head_keys(*head, several)[k], Ok(true)));
                    }
                    if r is Err {
                        let e = r->Err_0;
                        let k = choose|k: int|
                            0 <= k < keys@.len() && keys_missed(*test, keys@, k) && #[trigger] answered(
                                *test,
                                keys@[k],
                                Err::<bool, RuntimeError>(e),
                            );
                        assert(answered(*test, head_keys(*head, several)[k], Err::<bool, RuntimeError>(e)));
                    }
                }
                return r;
            },
            _ => {},
        }
    }
    let ghost keys = head_keys(*head, several);
    assert(keys =~= seq![*head]);
    let candidate = match quoted_form_value(head) {
        Ok(v) => v,
        Err(e) => return Err(e),
    };
    let answer = test(&candidate);
    proof {
        assert(quoted(keys[0], candidate));
        assert(keys_missed(*test, keys, 0));
    }
    match answer {
        Ok(true) => {
            assert(answered(*test, keys[0], Ok(true)));
            Ok(true)
        },
        Ok(false) => {
            assert(answered(*test, keys[0], Ok(false)));
            Ok(false)
        },
        Err(e) => {
            assert(answered(*test, keys[0], Err::<bool, RuntimeError>(e)));
            Err(e)
        },
    }
}

/// Chooses a clause (see the module's description). A clause that is no
/// list, or an empty one, is an error with the given message, as is the
/// first error a call of the test returns.
pub fn clause_choice<F: Fn(&Value) -> Result<bool, RuntimeError>>(
    clauses: &[Form],
    several: bool,
    not_list: &str,
    empty: &str,
    test: F,
) -> (r: Result<CaseChoice, RuntimeError>)
    requires
        forall|v: &Value| test.requires((v,)),
    ensures
        chose(test, clauses@, several, not_list@, empty@, r),
{
    let mut default: Option<usize> = None;
    let mut c: usize = 0;
    while c < clauses.len()
        invariant
            c <= clauses.len(),
            forall|v: &Value| test.requires((v,)),
            clauses_passed(test, clauses@, c as int, several),
            match default {
                Some(d) => last_default(clauses@, c as int) == Some(d as int),
                None => last_default(clauses@, c as int) is None,
            },
        decreases clauses.len() - c,
    {
        let parts = match &clauses[c].kind {
            FormKind::List(parts) => parts,
            _ => {
                let e = invalid(not_list, clauses[c].span);
                assert(clause_failed(test, clauses@[c as int], several, e, not_list@, empty@));
                return Err(e);
            },
        };
        if parts.len() == 0 {
            let e = invalid(empty, clauses[c].span);
            assert(clause_failed(test, clauses@[c as int], several, e, not_list@, empty@));
            return Err(e);
        }
        if is_case_default_form(&parts[0]) {
            assert(clause_passed(test, clauses@[c as int], several));
            assert(clause_default(clauses@[c as int]));
            default = Some(c);
        } else {
            assert(!clause_default(clauses@[c as int]));
            match clause_keys_hit(&parts[0], several, &test) {
                Ok(true) => {
                    assert(clause_taken(test, clauses@[c as int], several));
                    return Ok(CaseChoice::Clause(c));
                },
                Ok(false) => {
                    assert(clause_passed(test, clauses@[c as int], several));
                },
                Err(e) => {
                    assert(clause_failed(test, clauses@[c as int], several, e, not_list@, empty@));
                    return Err(e);
                },
            }
        }
        c = c + 1;
    }
    match default {
        Some(d) => Ok(CaseChoice::Default(d)),
        None => Ok(CaseChoice::Miss),
    }
}

impl Runtime {
    /// `CASE` (`ECASE` with `error_on_miss`): chooses a clause, a key
    /// matching when `test` accepts its quoted value (see `clause_choice`).
    /// When `ECASE` finds no clause, that is an error.
    pub fn case_clause<F: Fn(&Value) -> Result<bool, RuntimeError>>(
        clauses: &[Form],
        error_on_miss: bool,
        span: Span,
        test: F,
    ) -> (r: Result<CaseChoice, RuntimeError>)
        requires
            forall|v: &Value| test.requires((v,)),
        ensures
            !error_on_miss ==> chose(test, clauses@, true, "case clauses must be lists"@, "case clause cannot be empty"@, r),
            error_on_miss ==> (chose(test, clauses@, true, "case clauses must be lists"@, "case clause cannot be empty"@, r)
                && !(r matches Ok(CaseChoice::Miss))) || (chose(
                test,
                clauses@,
                true,
                "case clauses must be lists"@,
                "case clause cannot be empty"@,
                Ok(CaseChoice::Miss),
            ) && (r matches Err(e) && is_invalid(e, "ecase fell through"@, span))),
    {
        let choice = clause_choice(clauses, true, "case clauses must be lists", "case clause cannot be empty", test);
        match choice {
            Ok(CaseChoice::Miss) => if error_on_miss {
                Err(invalid("ecase fell through", span))
            } else {
                Ok(CaseChoice::Miss)
            },
            other => other,
        }
    }

    /// `TYPECASE` (`ETYPECASE` with `error_on_miss`): chooses a clause, a
    /// clause's type matching when `test` accepts its quoted value (see
    /// `clause_choice`). When `ETYPECASE` finds no clause, that is an error.
    pub fn typecase_clause<F: Fn(&Value) -> Result<bool, RuntimeError>>(
        clauses: &[Form],
        error_on_miss: bool,
        span: Span,
        test: F,
    ) -> (r: Result<CaseChoice, RuntimeError>)
        requires
            forall|v: &Value| test.requires((v,)),
        ensures
            !error_on_miss ==> chose(
                test,
                clauses@,
                false,
                "typecase clauses must be lists"@,
                "typecase clause cannot be empty"@,
                r,
            ),
            error_on_miss ==> (chose(
                test,
                clauses@,
                false,
                "typecase clauses must be lists"@,
                "typecase clause cannot be empty"@,
                r,
            ) && !(r matches Ok(CaseChoice::Miss))) || (chose(
                test,
                clauses@,
                false,
                "typecase clauses must be lists"@,
                "typecase clause cannot be empty"@,
                Ok(CaseChoice::Miss),
            ) && (r matches Err(e) && is_invalid(e, "etypecase fell through"@, span))),
    {
        let choice = clause_choice(clauses, false, "typecase clauses must be lists", "typecase clause cannot be empty", test);
        match choice {
            Ok(CaseChoice::Miss) => if error_on_miss {
                Err(invalid("etypecase fell through", span))
            } else {
                Ok(CaseChoice::Miss)
            },
            other => other,
        }
    }
}

} // verus!
