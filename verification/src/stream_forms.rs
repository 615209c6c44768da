//! The binding lists of `WITH-INPUT-FROM-STRING` and
//! `WITH-OUTPUT-TO-STRING`: their shape, their variables, and the options
//! of the input form. Evaluating the string and option values and running
//! the body with the stream is the evaluator's.
use vstd::prelude::*;
use crate::error::{arity, invalid, is_arity_error, is_invalid, operands, reports, Failure, RuntimeError};
use crate::runtime::Runtime;
use crate::syntax::{atom_text, normalize, normalize_name, Form, FormKind};
use crate::text::{chars_of, text_is};
use crate::validation::variable_outcome;
use crate::value::Value;

verus! {

/// What `WITH-OUTPUT-TO-STRING`'s binding list names: the stream variable
/// and, optionally, the destination variable.
pub open spec fn output_binding_outcome(items: Seq<Form>) -> Result<(Seq<char>, Option<Seq<char>>), Failure> {
    match items[1].kind {
        FormKind::List(binding) => if binding.len() < 1 || binding.len() > 2 {
            Err(Failure::Invalid("with-output-to-string binding needs one or two variables"@, items[1].span))
        } else {
            match variable_outcome(binding@[0]) {
                None => Err(Failure::Invalid("with-output-to-string stream variable"@, binding@[0].span)),
                Some(v) => if binding.len() == 2 {
                    match variable_outcome(binding@[1]) {
                        None => Err(Failure::Invalid("with-output-to-string destination"@, binding@[1].span)),
                        Some(d) => Ok((v.0, Some(d.0))),
                    }
                } else {
                    Ok((v.0, None))
                },
            }
        },
        _ => Err(Failure::Invalid("with-output-to-string binding must be a list"@, items[1].span)),
    }
}

/// What `WITH-INPUT-FROM-STRING`'s binding list starts with: the stream
/// variable (the string form follows it).
pub open spec fn input_binding_outcome(items: Seq<Form>) -> Result<Seq<char>, Failure> {
    match items[1].kind {
        FormKind::List(binding) => if binding.len() < 2 {
            Err(
                Failure::Invalid(
                    "with-input-from-string binding needs a stream variable and string"@,
                    items[1].span,
                ),
            )
        } else {
            match variable_outcome(binding@[0]) {
                None => Err(Failure::Invalid("with-input-from-string stream variable"@, binding@[0].span)),
                Some(v) => Ok(v.0),
            }
        },
        _ => Err(Failure::Invalid("with-input-from-string binding must be a list"@, items[1].span)),
    }
}

/// An option of `WITH-INPUT-FROM-STRING`: `:START` or `:END` (whose value
/// form is evaluated), or `:INDEX` with the variable that receives the
/// position reached.
#[derive(Debug, PartialEq, Eq)]
pub enum StringInputOption {
    Start,
    End,
    Index(String),
}

/// The option a keyword form at position `cursor` of the binding list
/// names; its value form follows it.
pub open spec fn input_option_outcome(binding: Seq<Form>, cursor: int) -> Result<Option<Seq<char>>, Failure> {
    match atom_text(binding[cursor]) {
        None => Err(Failure::Invalid("with-input-from-string option must be a keyword"@, binding[cursor].span)),
        Some(t) => if cursor + 1 >= binding.len() {
            Err(Failure::Invalid("with-input-from-string option needs a value"@, binding[cursor].span))
        } else if normalize(t) == ":START"@ || normalize(t) == ":END"@ {
            Ok(None)
        } else if normalize(t) == ":INDEX"@ {
            match variable_outcome(binding[cursor + 1]) {
                None => Err(Failure::Invalid("with-input-from-string index variable"@, binding[cursor + 1].span)),
                Some(v) => Ok(Some(v.0)),
            }
        } else {
            Err(Failure::Invalid("unknown with-input-from-string option"@, binding[cursor].span))
        },
    }
}

impl Runtime {
    /// The variables of `(WITH-OUTPUT-TO-STRING (var [destination]) body...)`
    /// (see `output_binding_outcome`).
    pub fn output_string_binding(items: &[Form]) -> (r: Result<(String, Option<String>), RuntimeError>)
        ensures
            items@.len() < 2 ==> (r matches Err(e) && is_arity_error(
                e,
                "with-output-to-string"@,
                "at least one"@,
                operands(items@.len()),
            )),
            items@.len() >= 2 ==> match output_binding_outcome(items@) {
                Ok((v, d)) => r matches Ok((x, y)) && x@ == v && match (y, d) {
                    (Some(a), Some(b)) => a@ == b,
                    (None, None) => true,
                    _ => false,
                },
                Err(f) => r matches Err(e) && reports(e, f),
            },
    {
        if items.len() < 2 {
            let count: usize = if items.len() == 0 {
                0
            } else {
                items.len() - 1
            };
            return Err(arity("with-output-to-string", "at least one", count));
        }
        let binding = match &items[1].kind {
            FormKind::List(binding) => binding,
            _ => return Err(invalid("with-output-to-string binding must be a list", items[1].span)),
        };
        if binding.len() < 1 || binding.len() > 2 {
            return Err(invalid("with-output-to-string binding needs one or two variables", items[1].span));
        }
        let variable = Runtime::variable_name(&binding[0], "with-output-to-string stream variable")?;
        if binding.len() == 2 {
            let destination = Runtime::variable_name(&binding[1], "with-output-to-string destination")?;
            Ok((variable, Some(destination)))
        } else {
            Ok((variable, None))
        }
    }

    /// The binding list and stream variable of
    /// `(WITH-INPUT-FROM-STRING (var string option...) body...)` (see
    /// `input_binding_outcome`).
    pub fn input_string_binding(items: &[Form]) -> (r: Result<(&Vec<Form>, String), RuntimeError>)
        ensures
            items@.len() < 3 ==> (r matches Err(e) && is_arity_error(
                e,
                "with-input-from-string"@,
                "at least two"@,
                operands(items@.len()),
            )),
            items@.len() >= 3 ==> match input_binding_outcome(items@) {
                Ok(v) => r matches Ok((b, x)) && x@ == v && (items@[1].kind matches FormKind::List(l) && *b == l),
                Err(f) => r matches Err(e) && reports(e, f),
            },
    {
        if items.len() < 3 {
            let count: usize = if items.len() == 0 {
                0
            } else {
                items.len() - 1
            };
            return Err(arity("with-input-from-string", "at least two", count));
        }
        let binding = match &items[1].kind {
            FormKind::List(binding) => binding,
            _ => return Err(invalid("with-input-from-string binding must be a list", items[1].span)),
        };
        if binding.len() < 2 {
            return Err(invalid("with-input-from-string binding needs a stream variable and string", items[1].span));
        }
        let variable = Runtime::variable_name(&binding[0], "with-input-from-string stream variable")?;
        Ok((binding, variable))
    }

    /// Reads the option whose keyword stands at `cursor` in the binding
    /// list (see `input_option_outcome`).
    pub fn input_string_option(binding: &Vec<Form>, cursor: usize) -> (r: Result<StringInputOption, RuntimeError>)
        requires
            cursor < binding.len(),
        ensures
            match input_option_outcome(binding@, cursor as int) {
                Ok(None) => r matches Ok(o) && (o is Start || o is End) && (o is Start <==> normalize(
                    atom_text(binding@[cursor as int])->0,
                ) == ":START"@),
                Ok(Some(v)) => r matches Ok(StringInputOption::Index(x)) && x@ == v,
                Err(f) => r matches Err(e) && reports(e, f),
            },
    {
        let key = match &binding[cursor].kind {
            FormKind::Atom(t) => normalize_name(t.as_str()),
            _ => return Err(invalid("with-input-from-string option must be a keyword", binding[cursor].span)),
        };
        if cursor + 1 >= binding.len() {
            return Err(invalid("with-input-from-string option needs a value", binding[cursor].span));
        }
        let text = chars_of(key.as_str());
        if text_is(&text, ":START") {
            Ok(StringInputOption::Start)
        } else if text_is(&text, ":END") {
            Ok(StringInputOption::End)
        } else if text_is(&text, ":INDEX") {
            let name = Runtime::variable_name(&binding[cursor + 1], "with-input-from-string index variable")?;
            Ok(StringInputOption::Index(name))
        } else {
            Err(invalid("unknown with-input-from-string option", binding[cursor].span))
        }
    }
}

/// The arguments of the string input stream: the string, then, when a
/// start or an end was given, the start (0 by default) and the end if
/// given.
pub fn string_input_arguments(source: Value, start: Option<Value>, end: Option<Value>) -> (r: Vec<Value>)
    ensures
        r@ == if start is None && end is None {
            seq![source]
        } else {
            let s = match start {
                Some(v) => v,
                None => Value::Integer(0),
            };
            match end {
                Some(e) => seq![source, s, e],
                None => seq![source, s],
            }
        },
{
    let mut arguments: Vec<Value> = Vec::new();
    arguments.push(source);
    if start.is_some() || end.is_some() {
        let s = match start {
            Some(v) => v,
            None => Value::Integer(0),
        };
        arguments.push(s);
        match end {
            Some(e) => arguments.push(e),
            None => {},
        }
    }
    arguments
}

} // verus!
