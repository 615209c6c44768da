//! Small predicates on forms and names that the evaluator's dispatch uses:
//! atoms, `NIL`, keywords, tags, operator names and special forms.
use vstd::prelude::*;
use crate::literals::{literal_atom, literal_of};
use crate::names::{unqualified, unqualified_text};
use crate::numbers::{i64_of, parse_i64};
use crate::syntax::{atom_text, normalize, normalize_name, normalize_text, parse_symbol_token, token_of, Form, FormKind, SymbolTokenKind};
use crate::text::{chars_of, same_ignoring_case, string_from, tail_from, text_is, upcase_seq};
use crate::error::{invalid, is_invalid, RuntimeError};
use crate::value::Value;

verus! {

/// The text of an atom form.
pub fn atom_name(form: &Form) -> (r: Option<&str>)
    ensures
        match atom_text(*form) {
            Some(t) => r matches Some(s) && s@ == t,
            None => r is None,
        },
{
    match &form.kind {
        FormKind::Atom(value) => Some(value.as_str()),
        _ => None,
    }
}

/// Whether two names are equal up to ASCII case.
pub open spec fn same_up_to_case(a: Seq<char>, b: Seq<char>) -> bool {
    upcase_seq(a) == upcase_seq(b)
}

/// Whether a form is the atom `NIL`, in any case.
pub open spec fn nil_form(form: Form) -> bool {
    atom_text(form) matches Some(t) && same_up_to_case(t, "nil"@)
}

/// Whether a form is the atom `NIL`.
pub fn is_nil_form(form: &Form) -> (r: bool)
    ensures
        r == nil_form(*form),
{
    match atom_name(form) {
        Some(name) => {
            let cs = chars_of(name);
            same_ignoring_case(&cs, "nil")
        },
        None => false,
    }
}

/// The keyword a form spells as a macro option: an atom `:name` with a
/// nonempty name, normalized.
pub open spec fn macro_keyword_of(form: Form) -> Option<Seq<char>> {
    match atom_text(form) {
        Some(t) => if t.len() > 1 && t[0] == ':' {
            Some(normalize(t.skip(1)))
        } else {
            None
        },
        None => None,
    }
}

/// The name of a keyword form (see `macro_keyword_of`).
pub fn macro_keyword_name(form: &Form) -> (r: Option<String>)
    ensures
        match macro_keyword_of(*form) {
            Some(k) => r matches Some(s) && s@ == k,
            None => r is None,
        },
{
    let name = match atom_name(form) {
        Some(n) => n,
        None => return None,
    };
    let cs = chars_of(name);
    if cs.len() > 1 && cs[0] == ':' {
        let rest = tail_from(&cs, 1);
        Some(string_from(&normalize_text(&rest)))
    } else {
        None
    }
}

/// Whether a form is a keyword form.
pub fn is_macro_keyword_form(form: &Form) -> (r: bool)
    ensures
        r == (macro_keyword_of(*form) is Some),
{
    macro_keyword_name(form).is_some()
}

/// Whether an atom's text is `NIL` or `T` in any case.
pub open spec fn truth_atom(t: Seq<char>) -> bool {
    same_up_to_case(t, "nil"@) || same_up_to_case(t, "t"@)
}

/// The tag a form names in a `TAGBODY` or `CATCH`: keywords by their
/// normalized name; `NIL`, `T`, integers and atoms that are no literal by
/// their normalized name; other literals and non-atoms are no tag.
pub open spec fn control_tag_of(form: Form) -> Option<Seq<char>> {
    match atom_text(form) {
        None => None,
        Some(t) => if t.len() == 0 || t == ":"@ {
            None
        } else if t[0] == ':' {
            Some(normalize(t))
        } else if truth_atom(t) || i64_of(t) is Some || literal_of(t) is None {
            Some(normalize(t))
        } else {
            None
        },
    }
}

/// The tag a form names (see `control_tag_of`).
pub fn control_tag(form: &Form) -> (r: Option<String>)
    ensures
        match control_tag_of(*form) {
            Some(k) => r matches Some(s) && s@ == k,
            None => r is None,
        },
{
    let name = match atom_name(form) {
        Some(n) => n,
        None => return None,
    };
    let cs = chars_of(name);
    if cs.len() == 0 || text_is(&cs, ":") {
        return None;
    }
    if cs[0] == ':' {
        return Some(normalize_name(name));
    }
    if same_ignoring_case(&cs, "nil") || same_ignoring_case(&cs, "t") || parse_i64(&cs).is_some()
        || literal_atom(name).is_none() {
        Some(normalize_name(name))
    } else {
        None
    }
}

/// The special operators of the language.
pub open spec fn special_operator(op: Seq<char>) -> bool {
    op == "BLOCK"@
        || op == "CATCH"@
        || op == "EVAL-WHEN"@
        || op == "FLET"@
        || op == "FUNCTION"@
        || op == "GO"@
        || op == "IF"@
        || op == "LABELS"@
        || op == "LET"@
        || op == "LET*"@
        || op == "LOAD-TIME-VALUE"@
        || op == "LOCALLY"@
        || op == "MACROLET"@
        || op == "MULTIPLE-VALUE-CALL"@
        || op == "MULTIPLE-VALUE-PROG1"@
        || op == "PROGN"@
        || op == "PROGV"@
        || op == "QUOTE"@
        || op == "SETQ"@
        || op == "SYMBOL-MACROLET"@
        || op == "TAGBODY"@
        || op == "THE"@
        || op == "THROW"@
        || op == "UNWIND-PROTECT"@
}

fn names_special_operator(n: &Vec<char>) -> (r: bool)
    ensures
        r == special_operator(n@),
{
    text_is(n, "BLOCK")
        || text_is(n, "CATCH")
        || text_is(n, "EVAL-WHEN")
        || text_is(n, "FLET")
        || text_is(n, "FUNCTION")
        || text_is(n, "GO")
        || text_is(n, "IF")
        || text_is(n, "LABELS")
        || text_is(n, "LET")
        || text_is(n, "LET*")
        || text_is(n, "LOAD-TIME-VALUE")
        || text_is(n, "LOCALLY")
        || text_is(n, "MACROLET")
        || text_is(n, "MULTIPLE-VALUE-CALL")
        || text_is(n, "MULTIPLE-VALUE-PROG1")
        || text_is(n, "PROGN")
        || text_is(n, "PROGV")
        || text_is(n, "QUOTE")
        || text_is(n, "SETQ")
        || text_is(n, "SYMBOL-MACROLET")
        || text_is(n, "TAGBODY")
        || text_is(n, "THE")
        || text_is(n, "THROW")
        || text_is(n, "UNWIND-PROTECT")
}

/// Whether a name, with or without a package prefix, is a special operator.
pub fn is_special_operator_name(name: &str) -> (r: bool)
    ensures
        r == special_operator(unqualified(name@)),
{
    let cs = chars_of(name);
    let u = unqualified_text(&cs);
    names_special_operator(&u)
}

/// The operators the evaluator handles as special forms.
pub open spec fn special_form_name(op: Seq<char>) -> bool {
    op == "QUOTE"@
        || op == "QUASIQUOTE"@
        || op == "DECLARE"@
        || op == "LOCALLY"@
        || op == "EVAL-WHEN"@
        || op == "LOAD-TIME-VALUE"@
        || op == "NTH-VALUE"@
        || op == "DECLAIM"@
        || op == "PROCLAIM"@
        || op == "THE"@
        || op == "IF"@
        || op == "PROGN"@
        || op == "PROG1"@
        || op == "PROG2"@
        || op == "PROG"@
        || op == "PROG*"@
        || op == "VALUES"@
        || op == "IGNORE-ERRORS"@
        || op == "HANDLER-CASE"@
        || op == "HANDLER-BIND"@
        || op == "RESTART-BIND"@
        || op == "WITH-CONDITION-RESTARTS"@
        || op == "CATCH"@
        || op == "PROGV"@
        || op == "THROW"@
        || op == "WITH-SIMPLE-RESTART"@
        || op == "WITH-OPEN-FILE"@
        || op == "RESTART-CASE"@
        || op == "UNWIND-PROTECT"@
        || op == "BLOCK"@
        || op == "RETURN"@
        || op == "RETURN-FROM"@
        || op == "TAGBODY"@
        || op == "GO"@
        || op == "MULTIPLE-VALUE-BIND"@
        || op == "MULTIPLE-VALUE-CALL"@
        || op == "MULTIPLE-VALUE-LIST"@
        || op == "MULTIPLE-VALUE-PROG1"@
        || op == "AND"@
        || op == "OR"@
        || op == "WHEN"@
        || op == "UNLESS"@
        || op == "COND"@
        || op == "CASE"@
        || op == "ECASE"@
        || op == "TYPECASE"@
        || op == "ETYPECASE"@
        || op == "DESTRUCTURING-BIND"@
        || op == "LET"@
        || op == "LET*"@
        || op == "FLET"@
        || op == "LABELS"@
        || op == "MACROLET"@
        || op == "SYMBOL-MACROLET"@
        || op == "DOTIMES"@
        || op == "DOLIST"@
        || op == "DO"@
        || op == "DO*"@
        || op == "LAMBDA"@
        || op == "FUNCTION"@
        || op == "DEFUN"@
        || op == "DEFMACRO"@
        || op == "DEFINE-MODIFY-MACRO"@
        || op == "MACROEXPAND-1"@
        || op == "MACROEXPAND"@
        || op == "DEFPACKAGE"@
        || op == "IN-PACKAGE"@
        || op == "DEFINE"@
        || op == "DEFINE-SYMBOL-MACRO"@
        || op == "SETQ"@
        || op == "PSETQ"@
        || op == "MULTIPLE-VALUE-SETQ"@
        || op == "SETF"@
        || op == "PSETF"@
        || op == "PUSH"@
        || op == "POP"@
        || op == "PUSHNEW"@
        || op == "ROTATEF"@
        || op == "SHIFTF"@
        || op == "DEFSETF"@
        || op == "INCF"@
        || op == "DECF"@
        || op == "DEFSTRUCT"@
        || op == "DEFCLASS"@
        || op == "DEFGENERIC"@
        || op == "DEFMETHOD"@
        || op == "DEFVAR"@
        || op == "DEFPARAMETER"@
        || op == "DEFCONSTANT"@
        || op == "DEFINE-SETF-EXPANDER"@
        || op == "GET-SETF-EXPANSION"@
        || op == "EVAL"@
        || op == "FUNCALL"@
        || op == "APPLY"@
        || op == "MAP-INTO"@
        || op == "MAPCAR"@
}

fn names_special_form(n: &Vec<char>) -> (r: bool)
    ensures
        r == special_form_name(n@),
{
    text_is(n, "QUOTE")
        || text_is(n, "QUASIQUOTE")
        || text_is(n, "DECLARE")
        || text_is(n, "LOCALLY")
        || text_is(n, "EVAL-WHEN")
        || text_is(n, "LOAD-TIME-VALUE")
        || text_is(n, "NTH-VALUE")
        || text_is(n, "DECLAIM")
        || text_is(n, "PROCLAIM")
        || text_is(n, "THE")
        || text_is(n, "IF")
        || text_is(n, "PROGN")
        || text_is(n, "PROG1")
        || text_is(n, "PROG2")
        || text_is(n, "PROG")
        || text_is(n, "PROG*")
        || text_is(n, "VALUES")
        || text_is(n, "IGNORE-ERRORS")
        || text_is(n, "HANDLER-CASE")
        || text_is(n, "HANDLER-BIND")
        || text_is(n, "RESTART-BIND")
        || text_is(n, "WITH-CONDITION-RESTARTS")
        || text_is(n, "CATCH")
        || text_is(n, "PROGV")
        || text_is(n, "THROW")
        || text_is(n, "WITH-SIMPLE-RESTART")
        || text_is(n, "WITH-OPEN-FILE")
        || text_is(n, "RESTART-CASE")
        || text_is(n, "UNWIND-PROTECT")
        || text_is(n, "BLOCK")
        || text_is(n, "RETURN")
        || text_is(n, "RETURN-FROM")
        || text_is(n, "TAGBODY")
        || text_is(n, "GO")
        || text_is(n, "MULTIPLE-VALUE-BIND")
        || text_is(n, "MULTIPLE-VALUE-CALL")
        || text_is(n, "MULTIPLE-VALUE-LIST")
        || text_is(n, "MULTIPLE-VALUE-PROG1")
        || text_is(n, "AND")
        || text_is(n, "OR")
        || text_is(n, "WHEN")
        || text_is(n, "UNLESS")
        || text_is(n, "COND")
        || text_is(n, "CASE")
        || text_is(n, "ECASE")
        || text_is(n, "TYPECASE")
        || text_is(n, "ETYPECASE")
        || text_is(n, "DESTRUCTURING-BIND")
        || text_is(n, "LET")
        || text_is(n, "LET*")
        || text_is(n, "FLET")
        || text_is(n, "LABELS")
        || text_is(n, "MACROLET")
        || text_is(n, "SYMBOL-MACROLET")
        || text_is(n, "DOTIMES")
        || text_is(n, "DOLIST")
        || text_is(n, "DO")
        || text_is(n, "DO*")
        || text_is(n, "LAMBDA")
        || text_is(n, "FUNCTION")
        || text_is(n, "DEFUN")
        || text_is(n, "DEFMACRO")
        || text_is(n, "DEFINE-MODIFY-MACRO")
        || text_is(n, "MACROEXPAND-1")
        || text_is(n, "MACROEXPAND")
        || text_is(n, "DEFPACKAGE")
        || text_is(n, "IN-PACKAGE")
        || text_is(n, "DEFINE")
        || text_is(n, "DEFINE-SYMBOL-MACRO")
        || text_is(n, "SETQ")
        || text_is(n, "PSETQ")
        || text_is(n, "MULTIPLE-VALUE-SETQ")
        || text_is(n, "SETF")
        || text_is(n, "PSETF")
        || text_is(n, "PUSH")
        || text_is(n, "POP")
        || text_is(n, "PUSHNEW")
        || text_is(n, "ROTATEF")
        || text_is(n, "SHIFTF")
        || text_is(n, "DEFSETF")
        || text_is(n, "INCF")
        || text_is(n, "DECF")
        || text_is(n, "DEFSTRUCT")
        || text_is(n, "DEFCLASS")
        || text_is(n, "DEFGENERIC")
        || text_is(n, "DEFMETHOD")
        || text_is(n, "DEFVAR")
        || text_is(n, "DEFPARAMETER")
        || text_is(n, "DEFCONSTANT")
        || text_is(n, "DEFINE-SETF-EXPANDER")
        || text_is(n, "GET-SETF-EXPANSION")
        || text_is(n, "EVAL")
        || text_is(n, "FUNCALL")
        || text_is(n, "APPLY")
        || text_is(n, "MAP-INTO")
        || text_is(n, "MAPCAR")
}

/// Whether a form is an atom naming a special form.
pub fn is_special_form(form: &Form) -> (r: bool)
    ensures
        r == (atom_text(*form) matches Some(t) && special_form_name(normalize(t))),
{
    match atom_name(form) {
        Some(operator) => {
            let cs = chars_of(operator);
            let n = normalize_text(&cs);
            names_special_form(&n)
        },
        None => false,
    }
}

/// Whether a form is the default clause key of `CASE`: the plain symbol
/// `T` or `OTHERWISE`, unescaped.
pub open spec fn case_default_of(form: Form) -> bool {
    match atom_text(form) {
        Some(t) => match token_of(t) {
            Some(tok) => tok.kind == SymbolTokenKind::Symbol && !tok.escaped && (unqualified(t) == "T"@
                || unqualified(t) == "OTHERWISE"@),
            None => false,
        },
        None => false,
    }
}

/// Whether a form is the default clause key of `CASE`.
pub fn is_case_default_form(form: &Form) -> (r: bool)
    ensures
        r == case_default_of(*form),
{
    let name = match atom_name(form) {
        Some(n) => n,
        None => return false,
    };
    let token = match parse_symbol_token(name) {
        Some(t) => t,
        None => return false,
    };
    let cs = chars_of(name);
    let u = unqualified_text(&cs);
    matches!(token.kind, SymbolTokenKind::Symbol) && !token.escaped && (text_is(&u, "T") || text_is(&u, "OTHERWISE"))
}

/// Whether a form is a list whose operator is the atom `name`, in any case.
pub open spec fn operator_form(form: Form, name: Seq<char>) -> bool {
    match form.kind {
        FormKind::List(items) => items@.len() > 0 && (atom_text(items@[0]) matches Some(t) && same_up_to_case(
            t,
            name,
        )),
        _ => false,
    }
}

/// Whether a form is an operator form of `name` (see `operator_form`).
pub fn is_operator_form(form: &Form, name: &str) -> (r: bool)
    ensures
        r == operator_form(*form, name@),
{
    match &form.kind {
        FormKind::List(items) => {
            if items.len() == 0 {
                return false;
            }
            match atom_name(&items[0]) {
                Some(operator) => {
                    let cs = chars_of(operator);
                    let n = chars_of(name);
                    let a = crate::text::upcase_text(&cs);
                    let b = crate::text::upcase_text(&n);
                    crate::text::same_text(&a, &b)
                },
                None => false,
            }
        },
        _ => false,
    }
}

/// Whether a form's items are two, the first an atom spelling `name` in
/// any case.
pub open spec fn prefixed(items: Seq<Form>, name: Seq<char>) -> bool {
    items.len() == 2 && (atom_text(items[0]) matches Some(t) && same_up_to_case(t, name))
}

/// The argument of a two-element form whose operator is the atom `name`
/// (in any case), as `(quote x)` has `x`.
pub fn prefix_argument<'a>(items: &'a [Form], name: &str) -> (r: Option<&'a Form>)
    ensures
        prefixed(items@, name@) ==> r == Some(&items@[1]),
        !prefixed(items@, name@) ==> r is None,
{
    if items.len() != 2 {
        return None;
    }
    match atom_name(&items[0]) {
        Some(operator) => {
            let cs = chars_of(operator);
            if same_ignoring_case(&cs, name) {
                Some(&items[1])
            } else {
                None
            }
        },
        None => None,
    }
}

/// The list `(name value)` that a quasiquote marker stands for.
pub fn quasiquote_marker(name: &str, value: Value) -> (r: Value)
    ensures
        r matches Value::List(items) && items@.len() == 2 && items@[1] == value && (items@[0] matches Value::Symbol(
            s,
        ) && s@ == normalize(name@)),
{
    let mut items: Vec<Value> = Vec::new();
    items.push(Value::symbol(name));
    items.push(value);
    Value::list(items)
}

/// The elements and final tail of a possibly dotted list, its dotted
/// tails flattened: `(1 . (2 . 3))` has elements 1, 2 and tail 3.
pub open spec fn dotted_parts_of(v: Value) -> Option<(Seq<Value>, Value)>
    decreases v,
{
    match v {
        Value::Nil => Some((Seq::empty(), Value::Nil)),
        Value::List(l) => Some((l@, Value::Nil)),
        Value::DottedList { items, tail } => match *tail {
            Value::Nil => Some((items@, Value::Nil)),
            Value::List(more) => Some((items@ + more@, Value::Nil)),
            Value::DottedList { .. } => match dotted_parts_of(*tail) {
                Some(p) => Some((items@ + p.0, p.1)),
                None => None,
            },
            other => Some((items@, other)),
        },
        _ => None,
    }
}

/// Appends copies of `more` to `out`.
fn append_values(out: &mut Vec<Value>, more: &Vec<Value>)
    ensures
        final(out)@ == old(out)@ + more@,
{
    let ghost start = out@;
    let mut i: usize = 0;
    while i < more.len()
        invariant
            i <= more.len(),
            out@ == start + more@.take(i as int),
        decreases more.len() - i,
    {
        out.push(more[i].clone());
        proof {
            assert(more@.take(i + 1) =~= more@.take(i as int).push(more@[i as int]));
        }
        i = i + 1;
    }
    proof {
        assert(more@.take(more.len() as int) =~= more@);
    }
}

/// The elements and final tail of a list value (see `dotted_parts_of`).
pub fn macro_dotted_parts(value: &Value) -> (r: Option<(Vec<Value>, Value)>)
    ensures
        match dotted_parts_of(*value) {
            Some(p) => r matches Some(q) && q.0@ == p.0 && q.1 == p.1,
            None => r is None,
        },
    decreases value,
{
    match value {
        Value::Nil => Some((Vec::new(), Value::Nil)),
        Value::List(values) => Some((crate::sequence_options::copy_values(values), Value::Nil)),
        Value::DottedList { items, tail } => {
            let mut values = crate::sequence_options::copy_values(items);
            match &**tail {
                Value::Nil => Some((values, Value::Nil)),
                Value::List(more) => {
                    append_values(&mut values, more);
                    Some((values, Value::Nil))
                },
                Value::DottedList { .. } => {
                    match macro_dotted_parts(&**tail) {
                        Some((more, dotted_tail)) => {
                            append_values(&mut values, &more);
                            Some((values, dotted_tail))
                        },
                        None => None,
                    }
                },
                other => Some((values, other.clone())),
            }
        },
        _ => None,
    }
}

/// Whether a form is a symbol usable as an `EVAL-WHEN` situation: an atom
/// that reads as an interned symbol or keyword and is no literal.
#[verifier::opaque]
pub open spec fn situation_symbol(form: Form) -> bool {
    match atom_text(form) {
        Some(t) => match token_of(t) {
            Some(tok) => !(tok.kind == SymbolTokenKind::Uninterned || (tok.kind == SymbolTokenKind::Symbol
                && literal_of(t) is Some)),
            None => false,
        },
        None => false,
    }
}

/// Whether a situation symbol is `EXECUTE` (in any case, unqualified).
#[verifier::opaque]
pub open spec fn executes(form: Form) -> bool {
    match atom_text(form) {
        Some(t) => match token_of(t) {
            Some(tok) => tok.package is None && same_up_to_case(tok.name, "execute"@),
            None => false,
        },
        None => false,
    }
}

/// The first situation, from the `k`-th on, that is no symbol.
pub open spec fn first_bad_situation(situations: Seq<Form>, k: int) -> Option<int>
    decreases situations.len() - k,
{
    if k < 0 || k >= situations.len() {
        None
    } else if !situation_symbol(situations[k]) {
        Some(k)
    } else {
        first_bad_situation(situations, k + 1)
    }
}

/// Reads one `EVAL-WHEN` situation: whether it is `EXECUTE`, or the error
/// for one that is no symbol.
fn situation_executes(situation: &Form) -> (r: Result<bool, RuntimeError>)
    ensures
        situation_symbol(*situation) ==> r == Ok::<bool, RuntimeError>(executes(*situation)),
        !situation_symbol(*situation) ==> (r matches Err(e) && is_invalid(
            e,
            "eval-when situations must contain symbols"@,
            situation.span,
        )),
{
    reveal(situation_symbol);
    reveal(executes);
    let name = match atom_name(situation) {
        Some(n) => n,
        None => return Err(invalid("eval-when situations must contain symbols", situation.span)),
    };
    let token = match parse_symbol_token(name) {
        Some(t) => t,
        None => return Err(invalid("eval-when situations must contain symbols", situation.span)),
    };
    let uninterned = match token.kind {
        SymbolTokenKind::Uninterned => true,
        _ => false,
    };
    let plain = match token.kind {
        SymbolTokenKind::Symbol => true,
        _ => false,
    };
    if uninterned || (plain && literal_atom(name).is_some()) {
        return Err(invalid("eval-when situations must contain symbols", situation.span));
    }
    let name_text = chars_of(token.name.as_str());
    Ok(token.package.is_none() && same_ignoring_case(&name_text, "execute"))
}

/// Whether the body of `(EVAL-WHEN situations body...)` runs when
/// evaluated: the situations must be a list of symbols, and the body runs
/// when one of them is `EXECUTE`.
pub fn eval_when_executes(form: &Form) -> (r: Result<bool, RuntimeError>)
    ensures
        match form.kind {
            FormKind::List(situations) => match first_bad_situation(situations@, 0) {
                Some(k) => r matches Err(e) && is_invalid(
                    e,
                    "eval-when situations must contain symbols"@,
                    situations@[k].span,
                ),
                None => r == Ok::<bool, RuntimeError>(
                    exists|k: int| 0 <= k < situations@.len() && #[trigger] executes(situations@[k]),
                ),
            },
            _ => r matches Err(e) && is_invalid(e, "eval-when situations must be a list"@, form.span),
        },
{
    let situations = match &form.kind {
        FormKind::List(situations) => situations,
        _ => return Err(invalid("eval-when situations must be a list", form.span)),
    };
    let mut found = false;
    let mut k: usize = 0;
    while k < situations.len()
        invariant
            k <= situations.len(),
            form.kind matches FormKind::List(s) && s@ == situations@,
            first_bad_situation(situations@, 0) == first_bad_situation(situations@, k as int),
            found == exists|j: int| 0 <= j < k && #[trigger] executes(situations@[j]),
        decreases situations.len() - k,
    {
        let hit = situation_executes(&situations[k])?;
        if hit {
            found = true;
        }
        proof {
            if executes(situations@[k as int]) {
                assert(found);
            }
        }
        k = k + 1;
    }
    Ok(found)
}

/// Whether a `SETF` place is a `VALUES` form: a list whose operator is
/// the atom `VALUES` as written.
pub fn setf_place_uses_multiple_values(place: &Form) -> (r: bool)
    ensures
        r == (place.kind matches FormKind::List(items) && items@.len() > 0 && atom_text(items@[0]) == Some(
            "VALUES"@,
        )),
{
    match &place.kind {
        FormKind::List(items) => {
            if items.len() == 0 {
                return false;
            }
            match atom_name(&items[0]) {
                Some(n) => {
                    let text = chars_of(n);
                    text_is(&text, "VALUES")
                },
                None => false,
            }
        },
        _ => false,
    }
}

} // verus!
