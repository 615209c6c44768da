//! `EVERY`, `SOME`, `NOTANY` and `NOTEVERY`: the predicate is applied to
//! the elements at each position of the sequences, up to the shortest, and
//! the scan stops at the first answer that decides the result.
use vstd::prelude::*;
use crate::error::{invalid, is_invalid, RuntimeError};
use crate::runtime::Runtime;
use crate::sequence_mapping::{column, column_at, mapped_at, shortest_from, shortest_length};
use crate::syntax::Span;
use crate::text::{chars_of, text_is};
use crate::value::{truthy, Value};

verus! {

/// The four sequence quantifiers: `EVERY`, `SOME` (here `Any`), `NOTANY`
/// and `NOTEVERY`.
#[derive(Clone, Copy, Debug, PartialEq, Eq)]
pub enum Quantifier {
    Every,
    Any,
    NotAny,
    NotEvery,
}

/// The quantifier an operation names.
pub open spec fn quantifier_of(op: Seq<char>) -> Option<Quantifier> {
    if op == "EVERY"@ {
        Some(Quantifier::Every)
    } else if op == "SOME"@ {
        Some(Quantifier::Any)
    } else if op == "NOTANY"@ {
        Some(Quantifier::NotAny)
    } else if op == "NOTEVERY"@ {
        Some(Quantifier::NotEvery)
    } else {
        None
    }
}

/// Whether an answer of the predicate ends the scan.
pub open spec fn stops(q: Quantifier, v: Value) -> bool {
    match q {
        Quantifier::Any | Quantifier::NotAny => truthy(v),
        Quantifier::Every | Quantifier::NotEvery => !truthy(v),
    }
}

/// The result when the answer `v` ends the scan: `SOME` gives the answer.
pub open spec fn stop_value(q: Quantifier, v: Value) -> Value {
    match q {
        Quantifier::Any => v,
        Quantifier::Every | Quantifier::NotAny => Value::Nil,
        Quantifier::NotEvery => Value::Boolean(true),
    }
}

/// The result when no answer ended the scan.
pub open spec fn end_value(q: Quantifier) -> Value {
    match q {
        Quantifier::Every | Quantifier::NotAny => Value::Boolean(true),
        Quantifier::Any | Quantifier::NotEvery => Value::Nil,
    }
}

/// How many positions the scan looks at: the length of the shortest
/// sequence, none without sequences.
pub open spec fn positions(sequences: Seq<Vec<Value>>) -> int {
    if sequences.len() == 0 {
        0
    } else {
        shortest_from(sequences, sequences[0]@.len() as int)
    }
}

/// The predicate answered at position `k` without ending the scan.
pub open spec fn went_on<F: Fn(&Vec<Value>) -> Result<Value, RuntimeError>>(
    q: Quantifier,
    f: F,
    sequences: Seq<Vec<Value>>,
    k: int,
) -> bool {
    exists|v: Value| #[trigger] mapped_at(f, sequences, k, v) && !stops(q, v)
}

/// The predicate's answer at position `k` ended the scan with result `r`.
pub open spec fn stopped_with<F: Fn(&Vec<Value>) -> Result<Value, RuntimeError>>(
    q: Quantifier,
    f: F,
    sequences: Seq<Vec<Value>>,
    k: int,
    r: Value,
) -> bool {
    exists|v: Value| #[trigger] mapped_at(f, sequences, k, v) && stops(q, v) && r == stop_value(q, v)
}

/// The predicate failed with `e` at position `k`.
pub open spec fn failed_at<F: Fn(&Vec<Value>) -> Result<Value, RuntimeError>>(
    f: F,
    sequences: Seq<Vec<Value>>,
    k: int,
    e: RuntimeError,
) -> bool {
    exists|args: Vec<Value>| column(sequences, k, args@) && #[trigger] f.ensures((&args,), Err::<Value, RuntimeError>(e))
}

impl Runtime {
    /// The quantifier an operation names; any other name is invalid.
    pub fn sequence_quantifier(operation: &str, span: Span) -> (r: Result<Quantifier, RuntimeError>)
        ensures
            match quantifier_of(operation@) {
                Some(q) => r == Ok::<Quantifier, RuntimeError>(q),
                None => r matches Err(e) && is_invalid(e, "unknown sequence quantifier operation"@, span),
            },
    {
        let op = chars_of(operation);
        if text_is(&op, "EVERY") {
            Ok(Quantifier::Every)
        } else if text_is(&op, "SOME") {
            Ok(Quantifier::Any)
        } else if text_is(&op, "NOTANY") {
            Ok(Quantifier::NotAny)
        } else if text_is(&op, "NOTEVERY") {
            Ok(Quantifier::NotEvery)
        } else {
            Err(invalid("unknown sequence quantifier operation", span))
        }
    }
}

/// Applies `predicate` to the elements at each position in order (see
/// `positions`) until an answer ends the scan (see `stops`), and gives
/// `stop_value` of that answer, or `end_value` when none did. The first
/// error a call returns ends the scan and is returned.
pub fn quantify<F: Fn(&Vec<Value>) -> Result<Value, RuntimeError>>(
    q: Quantifier,
    sequences: &Vec<Vec<Value>>,
    predicate: F,
) -> (r: Result<Value, RuntimeError>)
    requires
        forall|args: &Vec<Value>| predicate.requires((args,)),
    ensures
        r matches Ok(v) ==> (exists|i: int|
            0 <= i < positions(sequences@) && (forall|j: int| 0 <= j < i ==> #[trigger] went_on(q, predicate, sequences@, j))
                && #[trigger] stopped_with(q, predicate, sequences@, i, v)) || ((forall|j: int|
            0 <= j < positions(sequences@) ==> #[trigger] went_on(q, predicate, sequences@, j)) && v == end_value(q)),
        r matches Err(e) ==> exists|i: int|
            0 <= i < positions(sequences@) && (forall|j: int| 0 <= j < i ==> #[trigger] went_on(q, predicate, sequences@, j))
                && #[trigger] failed_at(predicate, sequences@, i, e),
{
    let length: usize = if sequences.len() == 0 {
        0
    } else {
        shortest_length(sequences, sequences[0].len())
    };
    let mut k: usize = 0;
    while k < length
        invariant
            k <= length,
            length == positions(sequences@),
            forall|s: int| 0 <= s < sequences.len() ==> length <= #[trigger] sequences@[s]@.len(),
            forall|args: &Vec<Value>| predicate.requires((args,)),
            forall|j: int| 0 <= j < k ==> #[trigger] went_on(q, predicate, sequences@, j),
        decreases length - k,
    {
        let args = column_at(sequences, k);
        match predicate(&args) {
            Ok(v) => {
                assert(mapped_at(predicate, sequences@, k as int, v));
                let ends = match q {
                    Quantifier::Any | Quantifier::NotAny => v.is_truthy(),
                    Quantifier::Every | Quantifier::NotEvery => !v.is_truthy(),
                };
                if ends {
                    let result = match q {
                        Quantifier::Any => v,
                        Quantifier::Every | Quantifier::NotAny => Value::Nil,
                        Quantifier::NotEvery => Value::Boolean(true),
                    };
                    assert(stopped_with(q, predicate, sequences@, k as int, result));
                    return Ok(result);
                }
                assert(went_on(q, predicate, sequences@, k as int));
            },
            Err(e) => {
                assert(predicate.ensures((&args,), Err::<Value, RuntimeError>(e)));
                assert(failed_at(predicate, sequences@, k as int, e));
                return Err(e);
            },
        }
        k = k + 1;
    }
    match q {
        Quantifier::Every | Quantifier::NotAny => Ok(Value::Boolean(true)),
        Quantifier::Any | Quantifier::NotEvery => Ok(Value::Nil),
    }
}

} // verus!
