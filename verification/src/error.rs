//! Errors the evaluator reports.
use vstd::prelude::*;
use crate::syntax::Span;
use crate::text::owned;
use crate::value::Value;

verus! {

/// An evaluation error.
#[derive(Debug, PartialEq)]
#[allow(inconsistent_fields)]
pub enum RuntimeError {
    /// A function or form got the wrong number of arguments.
    Arity { function: String, expected: String, actual: usize },
    /// A form or argument has an invalid shape.
    InvalidForm { message: String, span: Option<Span> },
    /// A value has the wrong type.
    Type { expected: String, actual: String, span: Option<Span> },
    /// A package operation failed.
    Package { message: String, span: Option<Span> },
    /// A number did not fit where it was needed.
    NumericOverflow,
    /// A restart was invoked; the handler unwinds to it.
    InvokeRestart { name: String, value: Value, arguments: Vec<Value>, span: Option<Span> },
}

/// `e` is an invalid-form error with the given message at the given place.
pub open spec fn is_invalid(e: RuntimeError, message: Seq<char>, span: Span) -> bool {
    e matches RuntimeError::InvalidForm { message: m, span: s } && m@ == message && s == Some(span)
}

/// `e` is a type error: `expected` was needed, a value of type `actual` came.
pub open spec fn is_type_error(e: RuntimeError, expected: Seq<char>, actual: Seq<char>, span: Span) -> bool {
    e matches RuntimeError::Type { expected: x, actual: a, span: s } && x@ == expected && a@ == actual
        && s == Some(span)
}

/// `e` is a package error with the given message at the given place.
pub open spec fn is_package_error(e: RuntimeError, message: Seq<char>, span: Span) -> bool {
    e matches RuntimeError::Package { message: m, span: s } && m@ == message && s == Some(span)
}

/// `e` is an arity error.
pub open spec fn is_arity_error(e: RuntimeError, function: Seq<char>, expected: Seq<char>, actual: nat) -> bool {
    e matches RuntimeError::Arity { function: f, expected: x, actual: a } && f@ == function && x@ == expected
        && a == actual
}

/// The number of arguments after a form's operator.
pub open spec fn operands(n: nat) -> nat {
    if n == 0 {
        0
    } else {
        (n - 1) as nat
    }
}

/// An invalid-form error.
pub fn invalid(message: &str, span: Span) -> (r: RuntimeError)
    ensures
        is_invalid(r, message@, span),
{
    RuntimeError::InvalidForm { message: owned(message), span: Some(span) }
}

/// A package error.
pub fn package_error(message: &str, span: Span) -> (r: RuntimeError)
    ensures
        is_package_error(r, message@, span),
{
    RuntimeError::Package { message: owned(message), span: Some(span) }
}

/// A type error for a value that is not of the expected type.
pub fn type_error(expected: &str, value: &Value, span: Span) -> (r: RuntimeError)
    ensures
        is_type_error(r, expected@, crate::value::kind_name_of(*value), span),
{
    RuntimeError::Type { expected: owned(expected), actual: owned(value.kind_name()), span: Some(span) }
}

/// An arity error.
pub fn arity(function: &str, expected: &str, actual: usize) -> (r: RuntimeError)
    ensures
        is_arity_error(r, function@, expected@, actual as nat),
{
    RuntimeError::Arity { function: owned(function), expected: owned(expected), actual }
}

/// The model of a reported error.
pub enum Failure {
    Invalid(Seq<char>, Span),
    Package(Seq<char>, Span),
    Type(Seq<char>, Seq<char>, Span),
}

/// Whether an error is the one a failure model describes.
pub open spec fn reports(e: RuntimeError, f: Failure) -> bool {
    match f {
        Failure::Invalid(m, s) => is_invalid(e, m, s),
        Failure::Package(m, s) => is_package_error(e, m, s),
        Failure::Type(x, a, s) => is_type_error(e, x, a, s),
    }
}

} // verus!
