//! Which built-in place a `SETF` of a call form updates, by its operator
//! (package prefix and case ignored) and number of arguments.
use vstd::prelude::*;
use crate::error::{arity, invalid, is_arity_error, is_invalid, RuntimeError};
use crate::names::{unqualified, unqualified_text};
use crate::syntax::Span;
use crate::text::{chars_of, text_is};

verus! {

/// The built-in places `SETF` knows by operator.
#[derive(Clone, Copy, Debug, PartialEq, Eq, Structural)]
pub enum PlaceKind {
    SlotValue,
    Car,
    Cdr,
    Nth,
    Elt,
    Subseq,
    Char,
    Svref,
    Aref,
    RowMajorAref,
    Bit,
    SymbolValue,
    SymbolFunction,
    Get,
    Gethash,
    Getf,
}

/// The built-in place an unqualified, upper-cased operator names, if any:
/// `FIRST` is `CAR`, `REST` is `CDR`, `SCHAR` is `CHAR`.
pub open spec fn place_kind_of(name: Seq<char>) -> Option<PlaceKind> {
    if name == "SLOT-VALUE"@ {
        Some(PlaceKind::SlotValue)
    } else if name == "CAR"@ || name == "FIRST"@ {
        Some(PlaceKind::Car)
    } else if name == "CDR"@ || name == "REST"@ {
        Some(PlaceKind::Cdr)
    } else if name == "NTH"@ {
        Some(PlaceKind::Nth)
    } else if name == "ELT"@ {
        Some(PlaceKind::Elt)
    } else if name == "SUBSEQ"@ {
        Some(PlaceKind::Subseq)
    } else if name == "CHAR"@ || name == "SCHAR"@ {
        Some(PlaceKind::Char)
    } else if name == "SVREF"@ {
        Some(PlaceKind::Svref)
    } else if name == "AREF"@ {
        Some(PlaceKind::Aref)
    } else if name == "ROW-MAJOR-AREF"@ {
        Some(PlaceKind::RowMajorAref)
    } else if name == "BIT"@ {
        Some(PlaceKind::Bit)
    } else if name == "SYMBOL-VALUE"@ {
        Some(PlaceKind::SymbolValue)
    } else if name == "SYMBOL-FUNCTION"@ {
        Some(PlaceKind::SymbolFunction)
    } else if name == "GET"@ {
        Some(PlaceKind::Get)
    } else if name == "GETHASH"@ {
        Some(PlaceKind::Gethash)
    } else if name == "GETF"@ {
        Some(PlaceKind::Getf)
    } else {
        None
    }
}

/// Whether a place of this kind takes `n` arguments: `SUBSEQ` two or
/// three, `AREF` and `BIT` at least one (the array; its subscripts are
/// checked against its rank later), the accessors of one object one, the
/// others two.
pub open spec fn arity_fits(kind: PlaceKind, n: nat) -> bool {
    match kind {
        PlaceKind::Car | PlaceKind::Cdr | PlaceKind::SymbolValue | PlaceKind::SymbolFunction => n == 1,
        PlaceKind::Subseq => 2 <= n <= 3,
        PlaceKind::Aref | PlaceKind::Bit => n >= 1,
        _ => n == 2,
    }
}

/// The name an arity error of this place reports.
pub open spec fn place_function(kind: PlaceKind) -> Seq<char> {
    match kind {
        PlaceKind::SlotValue => "setf slot-value"@,
        PlaceKind::Car => "setf car"@,
        PlaceKind::Cdr => "setf cdr"@,
        PlaceKind::Nth => "setf nth"@,
        PlaceKind::Elt => "setf elt"@,
        PlaceKind::Subseq => "setf subseq"@,
        PlaceKind::Char => "setf char"@,
        PlaceKind::Svref => "setf svref"@,
        PlaceKind::Aref => "setf aref"@,
        PlaceKind::RowMajorAref => "setf row-major-aref"@,
        PlaceKind::Bit => "setf bit"@,
        PlaceKind::SymbolValue => "setf symbol-value"@,
        PlaceKind::SymbolFunction => "setf symbol-function"@,
        PlaceKind::Get => "setf get"@,
        PlaceKind::Gethash => "setf gethash"@,
        PlaceKind::Getf => "setf getf"@,
    }
}

/// The expected count an arity error of this place reports.
pub open spec fn place_expected(kind: PlaceKind) -> Seq<char> {
    match kind {
        PlaceKind::Car | PlaceKind::Cdr | PlaceKind::SymbolValue | PlaceKind::SymbolFunction => "one"@,
        PlaceKind::Subseq => "two or three"@,
        PlaceKind::Aref => "at least one"@,
        PlaceKind::Bit => "array and subscripts"@,
        _ => "two"@,
    }
}

/// The argument count an arity error of this place reports: `BIT` reports
/// none, the others the count given.
pub open spec fn place_reported(kind: PlaceKind, n: nat) -> nat {
    if kind == PlaceKind::Bit {
        0
    } else {
        n
    }
}

/// What checking a built-in place gives: its kind, an arity error, or
/// the place is not supported.
pub open spec fn place_kind_outcome(name: Seq<char>, n: nat, span: Span, r: Result<PlaceKind, RuntimeError>) -> bool {
    match place_kind_of(name) {
        None => r matches Err(e) && is_invalid(e, "unsupported SETF place"@, span),
        Some(k) => if arity_fits(k, n) {
            r == Ok::<PlaceKind, RuntimeError>(k)
        } else {
            r matches Err(e) && is_arity_error(e, place_function(k), place_expected(k), place_reported(k, n))
        },
    }
}

/// The name and expected count of an arity error of this place.
fn arity_words(kind: PlaceKind) -> (r: (&'static str, &'static str))
    ensures
        r.0@ == place_function(kind),
        r.1@ == place_expected(kind),
{
    match kind {
        PlaceKind::SlotValue => ("setf slot-value", "two"),
        PlaceKind::Car => ("setf car", "one"),
        PlaceKind::Cdr => ("setf cdr", "one"),
        PlaceKind::Nth => ("setf nth", "two"),
        PlaceKind::Elt => ("setf elt", "two"),
        PlaceKind::Subseq => ("setf subseq", "two or three"),
        PlaceKind::Char => ("setf char", "two"),
        PlaceKind::Svref => ("setf svref", "two"),
        PlaceKind::Aref => ("setf aref", "at least one"),
        PlaceKind::RowMajorAref => ("setf row-major-aref", "two"),
        PlaceKind::Bit => ("setf bit", "array and subscripts"),
        PlaceKind::SymbolValue => ("setf symbol-value", "one"),
        PlaceKind::SymbolFunction => ("setf symbol-function", "one"),
        PlaceKind::Get => ("setf get", "two"),
        PlaceKind::Gethash => ("setf gethash", "two"),
        PlaceKind::Getf => ("setf getf", "two"),
    }
}

/// The built-in place an unqualified, upper-cased operator names.
fn kind_named(name: &Vec<char>) -> (r: Option<PlaceKind>)
    ensures
        r == place_kind_of(name@),
{
    if text_is(name, "SLOT-VALUE") {
        Some(PlaceKind::SlotValue)
    } else if text_is(name, "CAR") || text_is(name, "FIRST") {
        Some(PlaceKind::Car)
    } else if text_is(name, "CDR") || text_is(name, "REST") {
        Some(PlaceKind::Cdr)
    } else if text_is(name, "NTH") {
        Some(PlaceKind::Nth)
    } else if text_is(name, "ELT") {
        Some(PlaceKind::Elt)
    } else if text_is(name, "SUBSEQ") {
        Some(PlaceKind::Subseq)
    } else if text_is(name, "CHAR") || text_is(name, "SCHAR") {
        Some(PlaceKind::Char)
    } else if text_is(name, "SVREF") {
        Some(PlaceKind::Svref)
    } else if text_is(name, "AREF") {
        Some(PlaceKind::Aref)
    } else if text_is(name, "ROW-MAJOR-AREF") {
        Some(PlaceKind::RowMajorAref)
    } else if text_is(name, "BIT") {
        Some(PlaceKind::Bit)
    } else if text_is(name, "SYMBOL-VALUE") {
        Some(PlaceKind::SymbolValue)
    } else if text_is(name, "SYMBOL-FUNCTION") {
        Some(PlaceKind::SymbolFunction)
    } else if text_is(name, "GET") {
        Some(PlaceKind::Get)
    } else if text_is(name, "GETHASH") {
        Some(PlaceKind::Gethash)
    } else if text_is(name, "GETF") {
        Some(PlaceKind::Getf)
    } else {
        None
    }
}

/// The built-in place `(operator arg...)` updates, checked against its
/// number of arguments; an operator that names none is not supported.
/// (Symbol macros, setf expanders, accessors and setf functions are looked
/// up before this, by the evaluator.)
pub fn place_kind(operator: &str, argument_count: usize, span: Span) -> (r: Result<PlaceKind, RuntimeError>)
    ensures
        place_kind_outcome(unqualified(operator@), argument_count as nat, span, r),
{
    let name = unqualified_text(&chars_of(operator));
    let kind = match kind_named(&name) {
        Some(k) => k,
        None => return Err(invalid("unsupported SETF place", span)),
    };
    let fits = match kind {
        PlaceKind::Car | PlaceKind::Cdr | PlaceKind::SymbolValue | PlaceKind::SymbolFunction => argument_count == 1,
        PlaceKind::Subseq => 2 <= argument_count && argument_count <= 3,
        PlaceKind::Aref | PlaceKind::Bit => argument_count >= 1,
        _ => argument_count == 2,
    };
    if fits {
        Ok(kind)
    } else {
        let (function, expected) = arity_words(kind);
        let reported: usize = if kind == PlaceKind::Bit {
            0
        } else {
            argument_count
        };
        Err(arity(function, expected, reported))
    }
}

/// What the operator of a place names as a function, as far as `SETF`
/// cares: a slot reader of a class, a structure accessor (read-only or
/// not), or anything else.
#[derive(Clone, Copy, Debug, PartialEq, Eq, Structural)]
pub enum AccessorKind {
    Other,
    SlotReader,
    StructureAccessor { read_only: bool },
}

/// How `SETF` updates a place.
#[derive(Clone, Copy, Debug, PartialEq, Eq, Structural)]
pub enum PlaceRoute {
    /// The place is a symbol macro: its expansion is the place.
    SymbolMacro,
    /// The place is a variable: it is assigned, or defined.
    Variable,
    /// The operator has a setf expander: its expansion is applied.
    Expander,
    /// The operator reads a slot of an instance: the slot is written.
    SlotAccessor,
    /// The operator is a writable structure accessor: the slot is written.
    StructureAccessor,
    /// The operator has a setf function: it is called with the argument
    /// values and the new value.
    SetfFunction,
    /// A built-in place.
    Builtin(PlaceKind),
}

/// How `SETF` updates a place, in the order the candidates are tried: a
/// symbol macro, a variable, then for a call form (by its operator) a
/// setf expander, a slot or structure accessor (one argument; a read-only
/// structure slot cannot be written), a setf function, and last the
/// built-in places. A place that is neither an atom nor a call form with
/// an atom as operator is not supported.
pub open spec fn place_route_outcome(
    expands: bool,
    is_atom: bool,
    operator: Option<Seq<char>>,
    n: nat,
    has_expander: bool,
    accessor: AccessorKind,
    has_setf_function: bool,
    span: Span,
    r: Result<PlaceRoute, RuntimeError>,
) -> bool {
    if expands {
        r == Ok::<PlaceRoute, RuntimeError>(PlaceRoute::SymbolMacro)
    } else if is_atom {
        r == Ok::<PlaceRoute, RuntimeError>(PlaceRoute::Variable)
    } else {
        match operator {
            None => r matches Err(e) && is_invalid(e, "unsupported SETF place"@, span),
            Some(op) => if has_expander {
                r == Ok::<PlaceRoute, RuntimeError>(PlaceRoute::Expander)
            } else {
                match accessor {
                    AccessorKind::SlotReader => if n == 1 {
                        r == Ok::<PlaceRoute, RuntimeError>(PlaceRoute::SlotAccessor)
                    } else {
                        r matches Err(e) && is_arity_error(e, "setf slot accessor"@, "one"@, n)
                    },
                    AccessorKind::StructureAccessor { read_only } => if n != 1 {
                        r matches Err(e) && is_arity_error(e, "setf structure accessor"@, "one"@, n)
                    } else if read_only {
                        r matches Err(e) && is_invalid(e, "cannot SETF a read-only structure slot"@, span)
                    } else {
                        r == Ok::<PlaceRoute, RuntimeError>(PlaceRoute::StructureAccessor)
                    },
                    AccessorKind::Other => if has_setf_function {
                        r == Ok::<PlaceRoute, RuntimeError>(PlaceRoute::SetfFunction)
                    } else {
                        match place_kind_of(unqualified(op)) {
                            None => r matches Err(e) && is_invalid(e, "unsupported SETF place"@, span),
                            Some(k) => if arity_fits(k, n) {
                                r == Ok::<PlaceRoute, RuntimeError>(PlaceRoute::Builtin(k))
                            } else {
                                r matches Err(e) && is_arity_error(
                                    e,
                                    place_function(k),
                                    place_expected(k),
                                    place_reported(k, n),
                                )
                            },
                        }
                    },
                }
            },
        }
    }
}

/// Decides how `SETF` updates a place (see `place_route_outcome`), from
/// what the evaluator found: whether the place expands as a symbol macro,
/// whether it is an atom, the operator of a call form (`None` for any
/// other form), its number of arguments, and what the operator's
/// unqualified name has: a setf expander, an accessor, a setf function.
pub fn place_route(
    expands: bool,
    is_atom: bool,
    operator: Option<&str>,
    argument_count: usize,
    has_expander: bool,
    accessor: AccessorKind,
    has_setf_function: bool,
    span: Span,
) -> (r: Result<PlaceRoute, RuntimeError>)
    ensures
        place_route_outcome(
            expands,
            is_atom,
            match operator {
                Some(o) => Some(o@),
                None => None,
            },
            argument_count as nat,
            has_expander,
            accessor,
            has_setf_function,
            span,
            r,
        ),
{
    if expands {
        return Ok(PlaceRoute::SymbolMacro);
    }
    if is_atom {
        return Ok(PlaceRoute::Variable);
    }
    let op = match operator {
        Some(o) => o,
        None => return Err(invalid("unsupported SETF place", span)),
    };
    if has_expander {
        return Ok(PlaceRoute::Expander);
    }
    match accessor {
        AccessorKind::SlotReader => {
            if argument_count != 1 {
                return Err(arity("setf slot accessor", "one", argument_count));
            }
            Ok(PlaceRoute::SlotAccessor)
        },
        AccessorKind::StructureAccessor { read_only } => {
            if argument_count != 1 {
                return Err(arity("setf structure accessor", "one", argument_count));
            }
            if read_only {
                return Err(invalid("cannot SETF a read-only structure slot", span));
            }
            Ok(PlaceRoute::StructureAccessor)
        },
        AccessorKind::Other => {
            if has_setf_function {
                return Ok(PlaceRoute::SetfFunction);
            }
            match place_kind(op, argument_count, span) {
                Ok(k) => Ok(PlaceRoute::Builtin(k)),
                Err(e) => Err(e),
            }
        },
    }
}

} // verus!
