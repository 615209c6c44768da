//! Restarts: their bindings, how a designator finds one, and the error
//! that unwinds to a restart that has no function of its own.
use vstd::prelude::*;
use std::rc::Rc;
use crate::error::{arity, invalid, is_arity_error, is_invalid, reports, Failure, RuntimeError};
use crate::packages::{message_with, name_designator_outcome};
use crate::runtime::Runtime;
use crate::syntax::{normalize, normalize_name, Span};
use crate::text::{chars_of, owned, text_is};
use crate::value::{kind_name_of, list_items_of, same_object, Value};

verus! {

/// A restart established by `RESTART-CASE` or `WITH-SIMPLE-RESTART`: its
/// name, the function `RESTART-BIND` gave it, and the restart object that
/// designates it.
pub struct RestartBinding {
    pub name: String,
    pub function: Option<Value>,
    pub restart: Value,
}

impl Clone for RestartBinding {
    fn clone(&self) -> (r: RestartBinding)
        ensures
            r == *self,
    {
        let function = match &self.function {
            Some(f) => Some(f.clone()),
            None => None,
        };
        RestartBinding { name: self.name.clone(), function, restart: self.restart.clone() }
    }
}

impl RestartBinding {
    /// A binding for a restart named `name`, with its restart object.
    pub fn new(name: String, function: Option<Value>) -> (r: RestartBinding)
        ensures
            r.name@ == name@,
            r.function == function,
            r.restart matches Value::Restart(n) && n@ == name@,
    {
        let restart = Value::restart(name.as_str());
        RestartBinding { name, function, restart }
    }
}

/// The name a symbol designator refers to: symbols by their name, `NIL`
/// and `T` by theirs.
pub open spec fn reference_name_of(v: Value) -> Option<Seq<char>> {
    match v {
        Value::Symbol(s) => Some(s@),
        Value::SymbolExact(s) => Some(s@),
        Value::UninternedSymbol(s) => Some(s@),
        Value::Nil => Some("NIL"@),
        Value::Boolean(b) => if b {
            Some("T"@)
        } else {
            None
        },
        _ => None,
    }
}

/// The last position below `n` that satisfies `p`.
pub open spec fn last_match(n: int, p: spec_fn(int) -> bool) -> Option<int>
    decreases n,
{
    if n <= 0 {
        None
    } else if p(n - 1) {
        Some(n - 1)
    } else {
        last_match(n - 1, p)
    }
}

/// The most recent binding whose name normalizes to `target`.
pub open spec fn latest_normalizing_to(bindings: Seq<RestartBinding>, target: Seq<char>) -> Option<int> {
    last_match(bindings.len() as int, |i: int| normalize(bindings[i].name@) == target)
}

/// The most recent binding whose name normalizes as `name` does.
pub open spec fn latest_named(bindings: Seq<RestartBinding>, name: Seq<char>) -> Option<int> {
    latest_normalizing_to(bindings, normalize(name))
}

/// The most recent binding whose restart object is `designator`.
pub open spec fn latest_restart(bindings: Seq<RestartBinding>, designator: Value) -> Option<int> {
    last_match(bindings.len() as int, |i: int| same_object(bindings[i].restart, designator))
}

/// The binding a restart designator selects: by name for a symbol, by
/// identity for a restart object. None means no binding matched; an error
/// for any other designator.
pub open spec fn designated_binding(bindings: Seq<RestartBinding>, designator: Value) -> Result<Option<int>, ()> {
    match reference_name_of(designator) {
        Some(name) => Ok(latest_named(bindings, name)),
        None => if designator is Restart {
            Ok(latest_restart(bindings, designator))
        } else {
            Err(())
        },
    }
}

/// The value a restart invocation carries: `NIL` for no arguments, the
/// argument for one, all of them as multiple values otherwise.
pub open spec fn carried_value(arguments: Seq<Value>, v: Value) -> bool {
    if arguments.len() == 0 {
        v == Value::Nil
    } else if arguments.len() == 1 {
        v == arguments[0]
    } else {
        v matches Value::Values(items) && items@ == arguments
    }
}

/// `e` is the error that unwinds to the restart `name` with `arguments`.
pub open spec fn is_restart_invocation(e: RuntimeError, name: Seq<char>, arguments: Seq<Value>, span: Span) -> bool {
    e matches RuntimeError::InvokeRestart { name: n, value, arguments: a, span: s } && n@ == normalize(name)
        && carried_value(arguments, value) && a@ == arguments && s == Some(span)
}

/// Copies a list of values.
fn copied(items: &[Value]) -> (r: Vec<Value>)
    ensures
        r@ == items@,
{
    let mut out: Vec<Value> = Vec::new();
    let mut i: usize = 0;
    while i < items.len()
        invariant
            i <= items.len(),
            out@ == items@.take(i as int),
        decreases items.len() - i,
    {
        out.push(items[i].clone());
        proof {
            assert(items@.take(i + 1) =~= items@.take(i as int).push(items@[i as int]));
        }
        i = i + 1;
    }
    proof {
        assert(items@.take(items.len() as int) =~= items@);
    }
    out
}

/// The most recent binding whose name normalizes to `target`.
fn find_latest_named(bindings: &[RestartBinding], target: &String) -> (r: Option<usize>)
    ensures
        match r {
            Some(i) => i < bindings.len() && latest_normalizing_to(bindings@, target@) == Some(i as int),
            None => latest_normalizing_to(bindings@, target@) is None,
        },
{
    let ghost p = |i: int| normalize(bindings@[i].name@) == target@;
    let mut n: usize = bindings.len();
    while n > 0
        invariant
            n <= bindings.len(),
            p == (|i: int| normalize(bindings@[i].name@) == target@),
            last_match(bindings.len() as int, p) == last_match(n as int, p),
        decreases n,
    {
        let candidate = normalize_name(bindings[n - 1].name.as_str());
        if String::eq(&candidate, target) {
            return Some(n - 1);
        }
        n = n - 1;
    }
    None
}

/// The most recent binding whose restart object is `designator`.
fn find_latest_restart(bindings: &[RestartBinding], designator: &Value) -> (r: Option<usize>)
    ensures
        match r {
            Some(i) => i < bindings.len() && latest_restart(bindings@, *designator) == Some(i as int),
            None => latest_restart(bindings@, *designator) is None,
        },
{
    let ghost p = |i: int| same_object(bindings@[i].restart, *designator);
    let mut n: usize = bindings.len();
    while n > 0
        invariant
            n <= bindings.len(),
            p == (|i: int| same_object(bindings@[i].restart, *designator)),
            last_match(bindings.len() as int, p) == last_match(n as int, p),
        decreases n,
    {
        if bindings[n - 1].restart.eq_value(designator) {
            return Some(n - 1);
        }
        n = n - 1;
    }
    None
}

impl Runtime {
    /// The format control of a condition's report: the string itself.
    pub fn condition_format_control(value: &Value) -> (r: Option<String>)
        ensures
            match *value {
                Value::String(s) => r matches Some(c) && c@ == s@,
                _ => r is None,
            },
    {
        match value {
            Value::String(control) => Some(control.clone()),
            _ => None,
        }
    }

    /// The error that unwinds to the restart `name`, carrying `arguments`.
    pub fn restart_invocation_error(name: &str, arguments: &[Value], span: Span) -> (r: RuntimeError)
        ensures
            is_restart_invocation(r, name@, arguments@, span),
    {
        let value = if arguments.len() == 0 {
            Value::Nil
        } else if arguments.len() == 1 {
            arguments[0].clone()
        } else {
            Value::Values(Rc::new(copied(arguments)))
        };
        RuntimeError::InvokeRestart {
            name: normalize_name(name),
            value,
            arguments: copied(arguments),
            span: Some(span),
        }
    }

    /// The binding a restart designator selects among `bindings`, the most
    /// recent last (see `designated_binding`).
    pub fn restart_binding_for_designator_in(
        designator: &Value,
        bindings: &[RestartBinding],
        span: Span,
    ) -> (r: Result<Option<RestartBinding>, RuntimeError>)
        ensures
            match designated_binding(bindings@, *designator) {
                Ok(Some(i)) => r matches Ok(Some(b)) && b == bindings@[i],
                Ok(None) => r matches Ok(None),
                Err(_) => r matches Err(e) && is_invalid(
                    e,
                    "restart designator must be a symbol or restart"@,
                    span,
                ),
            },
    {
        if let Some((name, _)) = designator.symbol_reference() {
            let normalized = normalize_name(name.as_str());
            return match find_latest_named(bindings, &normalized) {
                Some(i) => Ok(Some(bindings[i].clone())),
                None => Ok(None),
            };
        }
        if designator.restart_name().is_some() {
            return match find_latest_restart(bindings, designator) {
                Some(i) => Ok(Some(bindings[i].clone())),
                None => Ok(None),
            };
        }
        Err(invalid("restart designator must be a symbol or restart", span))
    }

    /// The binding `INVOKE-RESTART` finds for a name, the most recent
    /// first, or the error that unwinds to the restart when none is bound.
    pub fn restart_binding_named(name: &str, bindings: &[RestartBinding], arguments: &[Value], span: Span) -> (r:
        Result<RestartBinding, RuntimeError>)
        ensures
            match latest_named(bindings@, name@) {
                Some(i) => r matches Ok(b) && b == bindings@[i],
                None => r matches Err(e) && is_restart_invocation(e, normalize(name@), arguments@, span),
            },
    {
        let normalized = normalize_name(name);
        match find_latest_named(bindings, &normalized) {
            Some(i) => Ok(bindings[i].clone()),
            None => Err(Runtime::restart_invocation_error(normalized.as_str(), arguments, span)),
        }
    }

    /// What invoking a restart binding does: apply its function, which is
    /// returned, or, for a restart without one, unwind to it.
    pub fn restart_function(binding: &RestartBinding, arguments: &[Value], span: Span) -> (r: Result<
        Value,
        RuntimeError,
    >)
        ensures
            match binding.function {
                Some(f) => r == Ok::<Value, RuntimeError>(f),
                None => r matches Err(e) && is_restart_invocation(e, binding.name@, arguments@, span),
            },
    {
        match &binding.function {
            Some(f) => Ok(f.clone()),
            None => Err(Runtime::restart_invocation_error(binding.name.as_str(), arguments, span)),
        }
    }
}

/// The parts a condition is made of: its type name, and the format
/// control and arguments of its message.
pub struct ConditionParts {
    pub condition_type: String,
    pub format_control: Option<String>,
    pub format_arguments: Vec<Value>,
}

/// One initarg pair of `MAKE-CONDITION` read after the state `st` (a
/// format control, format arguments).
#[verifier::opaque]
pub open spec fn initarg_step(st: (Option<Seq<char>>, Seq<Value>), name: Value, value: Value, span: Span) -> Result<
    (Option<Seq<char>>, Seq<Value>),
    Failure,
> {
    match name_designator_outcome(name, span) {
        Err(f) => Err(f),
        Ok(n) => if n == "FORMAT-CONTROL"@ {
            match value {
                Value::String(c) => Ok((Some(c@), st.1)),
                v => Err(Failure::Type("STRING"@, kind_name_of(v), span)),
            }
        } else if n == "FORMAT-ARGUMENTS"@ {
            match list_items_of(value) {
                Some(items) => Ok((st.0, items)),
                None => Err(Failure::Type("PROPER-LIST"@, kind_name_of(value), span)),
            }
        } else {
            Err(Failure::Invalid("unknown make-condition initarg :"@ + n, span))
        },
    }
}

/// The format control and arguments the first `n` initarg pairs of
/// `MAKE-CONDITION` give (the pair `k` at positions `2k + 1`, `2k + 2`); a
/// later pair overrides an earlier one.
pub open spec fn initargs_from(args: Seq<Value>, n: nat, span: Span) -> Result<(Option<Seq<char>>, Seq<Value>), Failure>
    decreases n,
{
    if n == 0 {
        Ok((None, Seq::empty()))
    } else {
        match initargs_from(args, (n - 1) as nat, span) {
            Err(f) => Err(f),
            Ok(st) => initarg_step(st, args[2 * n - 1], args[2 * n as int], span),
        }
    }
}

/// Whether an exec format control is the one a model describes.
pub open spec fn control_is(c: Option<String>, m: Option<Seq<char>>) -> bool {
    match (c, m) {
        (Some(x), Some(y)) => x@ == y,
        (None, None) => true,
        _ => false,
    }
}

/// Reads one initarg pair (see `initarg_step`).
fn read_initarg(
    name: &Value,
    value: &Value,
    control: Option<String>,
    format_arguments: Vec<Value>,
    span: Span,
    Ghost(st): Ghost<(Option<Seq<char>>, Seq<Value>)>,
) -> (r: Result<(Option<String>, Vec<Value>), RuntimeError>)
    requires
        control_is(control, st.0),
        format_arguments@ == st.1,
    ensures
        match initarg_step(st, *name, *value, span) {
            Ok(next) => r matches Ok(p) && control_is(p.0, next.0) && p.1@ == next.1,
            Err(f) => r matches Err(e) && reports(e, f),
        },
{
    reveal(initarg_step);
    let n = Runtime::name_designator_from_value(name, span)?;
    let text = chars_of(n.as_str());
    if text_is(&text, "FORMAT-CONTROL") {
        match value {
            Value::String(c) => Ok((Some(c.clone()), format_arguments)),
            v => Err(RuntimeError::Type { expected: owned("STRING"), actual: owned(v.kind_name()), span: Some(span) }),
        }
    } else if text_is(&text, "FORMAT-ARGUMENTS") {
        match value.list_items() {
            Some(items) => Ok((control, items)),
            None => Err(
                RuntimeError::Type { expected: owned("PROPER-LIST"), actual: owned(value.kind_name()), span: Some(span) },
            ),
        }
    } else {
        Err(
            RuntimeError::InvalidForm {
                message: message_with("unknown make-condition initarg :", &text),
                span: Some(span),
            },
        )
    }
}

/// What the arguments of `MAKE-CONDITION` (a type designator, then
/// initarg pairs) give.
pub open spec fn condition_parts_outcome(args: Seq<Value>, span: Span) -> Result<
    (Seq<char>, Option<Seq<char>>, Seq<Value>),
    Failure,
> {
    match name_designator_outcome(args[0], span) {
        Err(f) => Err(f),
        Ok(t) => match initargs_from(args, ((args.len() - 1) / 2) as nat, span) {
            Err(f) => Err(f),
            Ok(st) => Ok((t, st.0, st.1)),
        },
    }
}

impl Runtime {
    /// Reads the arguments of `MAKE-CONDITION` (see
    /// `condition_parts_outcome`): none is an arity error, an odd number of
    /// initarg forms is invalid.
    pub fn condition_parts(arguments: &[Value], span: Span) -> (r: Result<ConditionParts, RuntimeError>)
        ensures
            arguments@.len() == 0 ==> (r matches Err(e) && is_arity_error(e, "make-condition"@, "at least one"@, 0)),
            arguments@.len() > 0 && (arguments@.len() - 1) % 2 != 0 ==> (r matches Err(e) && is_invalid(
                e,
                "make-condition initargs must be keyword/value pairs"@,
                span,
            )),
            arguments@.len() > 0 && (arguments@.len() - 1) % 2 == 0 ==> match condition_parts_outcome(arguments@, span) {
                Ok((t, c, a)) => r matches Ok(p) && p.condition_type@ == t && p.format_arguments@ == a && control_is(
                    p.format_control,
                    c,
                ),
                Err(f) => r matches Err(e) && reports(e, f),
            },
    {
        if arguments.len() == 0 {
            return Err(arity("make-condition", "at least one", 0));
        }
        if (arguments.len() - 1) % 2 != 0 {
            return Err(invalid("make-condition initargs must be keyword/value pairs", span));
        }
        let condition_type = Runtime::name_designator_from_value(&arguments[0], span)?;
        let length = arguments.len();
        let pairs = (length - 1) / 2;
        let mut control: Option<String> = None;
        let mut format_arguments: Vec<Value> = Vec::new();
        let mut n: usize = 0;
        while n < pairs
            invariant
                n <= pairs,
                arguments@.len() > 0,
                length == arguments@.len(),
                (arguments@.len() - 1) % 2 == 0,
                pairs == (arguments@.len() - 1) / 2,
                name_designator_outcome(arguments@[0], span) == Ok::<Seq<char>, Failure>(condition_type@),
                initargs_from(arguments@, n as nat, span) matches Ok(st) && format_arguments@ == st.1 && control_is(
                    control,
                    st.0,
                ),
            decreases pairs - n,
        {
            assert(2 * n + 2 <= length) by (nonlinear_arith)
                requires
                    n < pairs,
                    pairs == (length - 1) / 2,
                    length > 0,
            ;
            let k = 2 * n + 1;
            let ghost st = initargs_from(arguments@, n as nat, span)->Ok_0;
            match read_initarg(&arguments[k], &arguments[k + 1], control, format_arguments, span, Ghost(st)) {
                Ok((c, a)) => {
                    control = c;
                    format_arguments = a;
                },
                Err(e) => {
                    proof {
                        lemma_initargs_fail_sticks(arguments@, (n + 1) as nat, pairs as nat, span);
                    }
                    return Err(e);
                },
            }
            n = n + 1;
        }
        Ok(ConditionParts { condition_type, format_control: control, format_arguments })
    }

    /// The message of a condition from a format control and its
    /// arguments: a string control is formatted by `format`; any other
    /// value without arguments is printed; any other value with arguments
    /// is a type error.
    pub fn condition_message<F: Fn(&String, &[Value]) -> Result<String, RuntimeError>>(
        value: &Value,
        arguments: &[Value],
        span: Span,
        format: F,
    ) -> (r: Result<String, RuntimeError>)
        requires
            forall|c: &String, a: &[Value]| format.requires((c, a)),
        ensures
            match value {
                Value::String(c) => format.ensures((c, arguments), r),
                _ => if arguments@.len() == 0 {
                    r matches Ok(t) && t@ == crate::printer::printed(*value)
                } else {
                    r matches Err(e) && crate::error::is_type_error(
                        e,
                        "a string format control"@,
                        kind_name_of(*value),
                        span,
                    )
                },
            },
    {
        match value {
            Value::String(c) => format(c, arguments),
            _ => {
                if arguments.len() == 0 {
                    Ok(value.to_text())
                } else {
                    Err(
                        RuntimeError::Type {
                            expected: owned("a string format control"),
                            actual: owned(value.kind_name()),
                            span: Some(span),
                        },
                    )
                }
            },
        }
    }
}

/// Once the first `n` initarg pairs fail to read, all of them do.
proof fn lemma_initargs_fail_sticks(args: Seq<Value>, n: nat, m: nat, span: Span)
    requires
        n <= m,
        initargs_from(args, n, span) is Err,
    ensures
        initargs_from(args, m, span) == initargs_from(args, n, span),
    decreases m - n,
{
    if n < m {
        lemma_initargs_fail_sticks(args, n, (m - 1) as nat, span);
    }
}

} // verus!
