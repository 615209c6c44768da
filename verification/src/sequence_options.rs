//! Keyword arguments of the sequence functions (`:test`, `:key`, `:start`,
//! ...), and the conversions between sequences and their elements.
use vstd::prelude::*;
use crate::error::{invalid, is_invalid, is_type_error, type_error, RuntimeError};
use crate::syntax::{normalize, normalize_text, Span};
use crate::text::{chars_of, join_text, string_from, text_is};
use crate::value::{kind_name_of, symbol_name_of, truthy, Value};

verus! {

/// Everything a keyword argument list can set.
pub struct KeywordOptions {
    pub from_end: bool,
    pub test: Option<Value>,
    pub test_not: Option<Value>,
    pub key: Option<Value>,
    pub start: usize,
    pub end: Option<usize>,
    pub start2: usize,
    pub end2: Option<usize>,
    pub count: Option<usize>,
    pub initial_value: Option<Value>,
}

/// Which keywords an operation accepts, and how its errors read.
pub struct OptionGrammar {
    /// How error messages name the operation (`sequence search`).
    pub subject: &'static str,
    /// How index errors name the operation.
    pub index_subject: &'static str,
    pub from_end: bool,
    pub test: bool,
    pub bounds: bool,
    pub pair_bounds: bool,
    pub count: bool,
    pub initial_value: bool,
    /// Whether `:end NIL` means no end (otherwise `:end` needs an integer).
    pub end_may_be_nil: bool,
}

/// Why an index argument was refused.
pub enum IndexFailure {
    NotInteger(Seq<char>),
    Negative,
    OutOfRange,
}

/// Why a keyword argument list was refused.
pub enum OptionFailure {
    Odd,
    NotKeyword,
    Conflict,
    Index(Seq<char>, IndexFailure),
    Unknown(Seq<char>),
}

/// The options before any keyword argument is read.
pub open spec fn default_options() -> KeywordOptions {
    KeywordOptions {
        from_end: false,
        test: None,
        test_not: None,
        key: None,
        start: 0,
        end: None,
        start2: 0,
        end2: None,
        count: None,
        initial_value: None,
    }
}

/// A non-negative integer index.
pub open spec fn index_outcome(v: Value) -> Result<usize, IndexFailure> {
    match v {
        Value::Integer(i) => if i < 0 {
            Err(IndexFailure::Negative)
        } else if i <= usize::MAX {
            Ok(i as usize)
        } else {
            Err(IndexFailure::OutOfRange)
        },
        _ => Err(IndexFailure::NotInteger(kind_name_of(v))),
    }
}

/// An index that may be `NIL` (no index).
pub open spec fn optional_index_outcome(v: Value) -> Result<Option<usize>, IndexFailure> {
    if v is Nil {
        Ok(None)
    } else {
        match index_outcome(v) {
            Ok(i) => Ok(Some(i)),
            Err(f) => Err(f),
        }
    }
}

/// Reads one keyword argument (name already normalized).
pub open spec fn option_step(g: OptionGrammar, o: KeywordOptions, name: Seq<char>, v: Value) -> Result<
    KeywordOptions,
    OptionFailure,
> {
    if name == "FROM-END"@ && g.from_end {
        Ok(KeywordOptions { from_end: truthy(v), ..o })
    } else if name == "TEST"@ && g.test {
        if o.test_not is Some {
            Err(OptionFailure::Conflict)
        } else {
            Ok(KeywordOptions { test: Some(v), ..o })
        }
    } else if name == "TEST-NOT"@ && g.test {
        if o.test is Some {
            Err(OptionFailure::Conflict)
        } else {
            Ok(KeywordOptions { test_not: Some(v), ..o })
        }
    } else if name == "KEY"@ {
        Ok(KeywordOptions { key: Some(v), ..o })
    } else if name == "START"@ && g.bounds {
        match index_outcome(v) {
            Ok(i) => Ok(KeywordOptions { start: i, ..o }),
            Err(f) => Err(OptionFailure::Index(":start"@, f)),
        }
    } else if name == "END"@ && g.bounds {
        if g.end_may_be_nil {
            match optional_index_outcome(v) {
                Ok(i) => Ok(KeywordOptions { end: i, ..o }),
                Err(f) => Err(OptionFailure::Index(":end"@, f)),
            }
        } else {
            match index_outcome(v) {
                Ok(i) => Ok(KeywordOptions { end: Some(i), ..o }),
                Err(f) => Err(OptionFailure::Index(":end"@, f)),
            }
        }
    } else if name == "START1"@ && g.pair_bounds {
        match index_outcome(v) {
            Ok(i) => Ok(KeywordOptions { start: i, ..o }),
            Err(f) => Err(OptionFailure::Index(":start1"@, f)),
        }
    } else if name == "END1"@ && g.pair_bounds {
        match optional_index_outcome(v) {
            Ok(i) => Ok(KeywordOptions { end: i, ..o }),
            Err(f) => Err(OptionFailure::Index(":end1"@, f)),
        }
    } else if name == "START2"@ && g.pair_bounds {
        match index_outcome(v) {
            Ok(i) => Ok(KeywordOptions { start2: i, ..o }),
            Err(f) => Err(OptionFailure::Index(":start2"@, f)),
        }
    } else if name == "END2"@ && g.pair_bounds {
        match optional_index_outcome(v) {
            Ok(i) => Ok(KeywordOptions { end2: i, ..o }),
            Err(f) => Err(OptionFailure::Index(":end2"@, f)),
        }
    } else if name == "COUNT"@ && g.count {
        match optional_index_outcome(v) {
            Ok(i) => Ok(KeywordOptions { count: i, ..o }),
            Err(f) => Err(OptionFailure::Index(":count"@, f)),
        }
    } else if name == "INITIAL-VALUE"@ && g.initial_value {
        Ok(KeywordOptions { initial_value: Some(v), ..o })
    } else {
        Err(OptionFailure::Unknown(name))
    }
}

/// Reads one keyword/value pair.
pub open spec fn pair_step(g: OptionGrammar, o: KeywordOptions, k: Value, v: Value) -> Result<
    KeywordOptions,
    OptionFailure,
> {
    match k {
        Value::Keyword(n) => option_step(g, o, normalize(n@), v),
        Value::KeywordExact(n) => option_step(g, o, normalize(n@), v),
        _ => Err(OptionFailure::NotKeyword),
    }
}

/// Reads the first `k` pairs, left to right; the first refusal stops reading.
pub open spec fn pairs_outcome(g: OptionGrammar, opts: Seq<Value>, k: nat) -> Result<
    KeywordOptions,
    OptionFailure,
>
    decreases k,
{
    if k == 0 {
        Ok(default_options())
    } else {
        match pairs_outcome(g, opts, (k - 1) as nat) {
            Err(f) => Err(f),
            Ok(o) => pair_step(g, o, opts[2 * k - 2], opts[2 * k - 1]),
        }
    }
}

/// What a keyword argument list reads as: refused when it has an odd
/// length, else the pairs read in order.
pub open spec fn options_outcome(g: OptionGrammar, opts: Seq<Value>) -> Result<KeywordOptions, OptionFailure> {
    if opts.len() % 2 != 0 {
        Err(OptionFailure::Odd)
    } else {
        pairs_outcome(g, opts, opts.len() / 2)
    }
}

/// The error reported for a refused index argument.
pub open spec fn index_error(index_subject: Seq<char>, option: Seq<char>, f: IndexFailure, span: Span, e: RuntimeError) -> bool {
    match f {
        IndexFailure::NotInteger(t) => is_type_error(e, "INTEGER"@, t, span),
        IndexFailure::Negative => is_invalid(
            e,
            index_subject + " "@ + option + " must be non-negative"@,
            span,
        ),
        IndexFailure::OutOfRange => is_invalid(
            e,
            index_subject + " "@ + option + " is out of range"@,
            span,
        ),
    }
}

/// The error reported for a refused keyword argument list.
pub open spec fn failure_error(g: OptionGrammar, f: OptionFailure, span: Span, e: RuntimeError) -> bool {
    match f {
        OptionFailure::Odd => is_invalid(e, g.subject@ + " keyword arguments must be supplied in pairs"@, span),
        OptionFailure::NotKeyword => is_invalid(
            e,
            g.subject@ + " keyword argument name must be a keyword"@,
            span,
        ),
        OptionFailure::Conflict => is_invalid(e, g.subject@ + " cannot use both :test and :test-not"@, span),
        OptionFailure::Index(option, i) => index_error(g.index_subject@, option, i, span, e),
        OptionFailure::Unknown(name) => is_invalid(e, "unknown "@ + g.subject@ + " keyword :"@ + name, span),
    }
}

/// The outcome of reading keyword arguments: the options read, or the error
/// for the first refusal.
pub open spec fn read_as(g: OptionGrammar, opts: Seq<Value>, span: Span, r: Result<KeywordOptions, RuntimeError>) -> bool {
    match options_outcome(g, opts) {
        Ok(o) => r == Ok::<KeywordOptions, RuntimeError>(o),
        Err(f) => r matches Err(e) && failure_error(g, f, span, e),
    }
}

proof fn lemma_failure_sticks(g: OptionGrammar, opts: Seq<Value>, i: nat, n: nat)
    requires
        i <= n,
        pairs_outcome(g, opts, i) is Err,
    ensures
        pairs_outcome(g, opts, n) == pairs_outcome(g, opts, i),
    decreases n - i,
{
    if i < n {
        lemma_failure_sticks(g, opts, i, (n - 1) as nat);
    }
}

/// Three pieces of text joined into a message.
fn message3(a: &str, b: &Vec<char>, c: &str) -> (r: String)
    ensures
        r@ == a@ + b@ + c@,
{
    let av = chars_of(a);
    let cv = chars_of(c);
    let ab = join_text(&av, b);
    string_from(&join_text(&ab, &cv))
}

/// Reads an index argument (see `index_outcome`).
fn read_index(index_subject: &str, option: &str, value: &Value, span: Span) -> (r: Result<usize, RuntimeError>)
    ensures
        match index_outcome(*value) {
            Ok(i) => r == Ok::<usize, RuntimeError>(i),
            Err(f) => r matches Err(e) && index_error(index_subject@, option@, f, span, e),
        },
{
    let index = match value {
        Value::Integer(i) => *i,
        _ => return Err(type_error("INTEGER", value, span)),
    };
    let mut prefix = chars_of(index_subject);
    prefix.push(' ');
    let opt = chars_of(option);
    let head = join_text(&prefix, &opt);
    proof {
        assert(head@ == index_subject@ + " "@ + option@) by {
            reveal_strlit(" ");
            assert(index_subject@.push(' ') =~= index_subject@ + " "@);
        }
    }
    if index < 0 {
        let m = message3("", &head, " must be non-negative");
        proof {
            reveal_strlit("");
            assert(""@ + head@ =~= head@);
        }
        return Err(RuntimeError::InvalidForm { message: m, span: Some(span) });
    }
    if (index as u64) <= (usize::MAX as u64) {
        Ok(index as usize)
    } else {
        let m = message3("", &head, " is out of range");
        proof {
            reveal_strlit("");
            assert(""@ + head@ =~= head@);
        }
        Err(RuntimeError::InvalidForm { message: m, span: Some(span) })
    }
}

/// Reads an index argument that may be `NIL`.
fn read_optional_index(index_subject: &str, option: &str, value: &Value, span: Span) -> (r: Result<
    Option<usize>,
    RuntimeError,
>)
    ensures
        match optional_index_outcome(*value) {
            Ok(i) => r == Ok::<Option<usize>, RuntimeError>(i),
            Err(f) => r matches Err(e) && index_error(index_subject@, option@, f, span, e),
        },
{
    match value {
        Value::Nil => Ok(None),
        _ => match read_index(index_subject, option, value, span) {
            Ok(i) => Ok(Some(i)),
            Err(e) => Err(e),
        },
    }
}

fn options_step(g: &OptionGrammar, o: KeywordOptions, name: &Vec<char>, value: &Value, span: Span) -> (r:
    Result<KeywordOptions, RuntimeError>)
    ensures
        match option_step(*g, o, name@, *value) {
            Ok(n) => r == Ok::<KeywordOptions, RuntimeError>(n),
            Err(f) => r matches Err(e) && failure_error(*g, f, span, e),
        },
{
    let mut o = o;
    if text_is(name, "FROM-END") && g.from_end {
        o.from_end = value.is_truthy();
        Ok(o)
    } else if text_is(name, "TEST") && g.test {
        if o.test_not.is_some() {
            return Err(conflict_error(g, span));
        }
        o.test = Some(value.clone());
        Ok(o)
    } else if text_is(name, "TEST-NOT") && g.test {
        if o.test.is_some() {
            return Err(conflict_error(g, span));
        }
        o.test_not = Some(value.clone());
        Ok(o)
    } else if text_is(name, "KEY") {
        o.key = Some(value.clone());
        Ok(o)
    } else if text_is(name, "START") && g.bounds {
        o.start = read_index(g.index_subject, ":start", value, span)?;
        Ok(o)
    } else if text_is(name, "END") && g.bounds {
        if g.end_may_be_nil {
            o.end = read_optional_index(g.index_subject, ":end", value, span)?;
        } else {
            o.end = Some(read_index(g.index_subject, ":end", value, span)?);
        }
        Ok(o)
    } else if text_is(name, "START1") && g.pair_bounds {
        o.start = read_index(g.index_subject, ":start1", value, span)?;
        Ok(o)
    } else if text_is(name, "END1") && g.pair_bounds {
        o.end = read_optional_index(g.index_subject, ":end1", value, span)?;
        Ok(o)
    } else if text_is(name, "START2") && g.pair_bounds {
        o.start2 = read_index(g.index_subject, ":start2", value, span)?;
        Ok(o)
    } else if text_is(name, "END2") && g.pair_bounds {
        o.end2 = read_optional_index(g.index_subject, ":end2", value, span)?;
        Ok(o)
    } else if text_is(name, "COUNT") && g.count {
        o.count = read_optional_index(g.index_subject, ":count", value, span)?;
        Ok(o)
    } else if text_is(name, "INITIAL-VALUE") && g.initial_value {
        o.initial_value = Some(value.clone());
        Ok(o)
    } else {
        let subject = chars_of(g.subject);
        let mut head = chars_of("unknown ");
        head = join_text(&head, &subject);
        let m = message3("", &head, " keyword :");
        let mv = chars_of(m.as_str());
        let full = join_text(&mv, name);
        proof {
            reveal_strlit("");
            assert(""@ + head@ =~= head@);
        }
        Err(RuntimeError::InvalidForm { message: string_from(&full), span: Some(span) })
    }
}

fn conflict_error(g: &OptionGrammar, span: Span) -> (r: RuntimeError)
    ensures
        is_invalid(r, g.subject@ + " cannot use both :test and :test-not"@, span),
{
    let s = chars_of(g.subject);
    let m = message3("", &s, " cannot use both :test and :test-not");
    proof {
        reveal_strlit("");
        assert(""@ + s@ =~= s@);
    }
    RuntimeError::InvalidForm { message: m, span: Some(span) }
}

/// Reads a keyword argument list under a grammar (see `read_as`).
pub fn parse_keyword_options(options: &[Value], g: &OptionGrammar, span: Span) -> (r: Result<
    KeywordOptions,
    RuntimeError,
>)
    ensures
        read_as(*g, options@, span, r),
{
    let s = chars_of(g.subject);
    if options.len() % 2 != 0 {
        let m = message3("", &s, " keyword arguments must be supplied in pairs");
        proof {
            reveal_strlit("");
            assert(""@ + s@ =~= s@);
        }
        return Err(RuntimeError::InvalidForm { message: m, span: Some(span) });
    }
    let mut parsed = KeywordOptions {
        from_end: false,
        test: None,
        test_not: None,
        key: None,
        start: 0,
        end: None,
        start2: 0,
        end2: None,
        count: None,
        initial_value: None,
    };
    let n = options.len() / 2;
    let mut i: usize = 0;
    while i < n
        invariant
            n == options@.len() / 2,
            options@.len() % 2 == 0,
            s@ == g.subject@,
            i <= n,
            pairs_outcome(*g, options@, i as nat) == Ok::<KeywordOptions, OptionFailure>(parsed),
        decreases n - i,
    {
        assert(2 * i + 1 < options.len());
        let name = match &options[2 * i] {
            Value::Keyword(k) => {
                let v = chars_of(k.as_str());
                normalize_text(&v)
            },
            Value::KeywordExact(k) => {
                let v = chars_of(k.as_str());
                normalize_text(&v)
            },
            _ => {
                let m = message3("", &s, " keyword argument name must be a keyword");
                proof {
                    reveal_strlit("");
                    assert(""@ + s@ =~= s@);
                    assert(pair_step(*g, parsed, options@[2 * i as int], options@[2 * i + 1])
                        == Err::<KeywordOptions, OptionFailure>(OptionFailure::NotKeyword));
                    assert(pairs_outcome(*g, options@, (i + 1) as nat)
                        == Err::<KeywordOptions, OptionFailure>(OptionFailure::NotKeyword));
                    lemma_failure_sticks(*g, options@, (i + 1) as nat, n as nat);
                    assert(options_outcome(*g, options@) == Err::<KeywordOptions, OptionFailure>(OptionFailure::NotKeyword));
                }
                let e = RuntimeError::InvalidForm { message: m, span: Some(span) };
                assert(m@ == g.subject@ + " keyword argument name must be a keyword"@);
                assert(failure_error(*g, OptionFailure::NotKeyword, span, e));
                return Err(e);
            },
        };
        match options_step(g, parsed, &name, &options[2 * i + 1], span) {
            Ok(next) => {
                parsed = next;
            },
            Err(e) => {
                proof {
                    lemma_failure_sticks(*g, options@, (i + 1) as nat, n as nat);
                }
                return Err(e);
            },
        }
        i = i + 1;
    }
    Ok(parsed)
}

/// The keyword arguments list membership accepts.
pub open spec fn membership_grammar(is_predicate: bool) -> OptionGrammar {
    OptionGrammar {
        subject: "list membership",
        index_subject: "list membership",
        from_end: false,
        test: !is_predicate,
        bounds: false,
        pair_bounds: false,
        count: false,
        initial_value: false,
        end_may_be_nil: true,
    }
}

fn make_membership_grammar(is_predicate: bool) -> (r: OptionGrammar)
    ensures
        r == membership_grammar(is_predicate),
{
    OptionGrammar {
        subject: "list membership",
        index_subject: "list membership",
        from_end: false,
        test: !is_predicate,
        bounds: false,
        pair_bounds: false,
        count: false,
        initial_value: false,
        end_may_be_nil: true,
    }
}

/// The keyword arguments association search accepts.
pub open spec fn association_grammar(is_predicate: bool) -> OptionGrammar {
    OptionGrammar {
        subject: "association search",
        index_subject: "association search",
        from_end: false,
        test: !is_predicate,
        bounds: false,
        pair_bounds: false,
        count: false,
        initial_value: false,
        end_may_be_nil: true,
    }
}

fn make_association_grammar(is_predicate: bool) -> (r: OptionGrammar)
    ensures
        r == association_grammar(is_predicate),
{
    OptionGrammar {
        subject: "association search",
        index_subject: "association search",
        from_end: false,
        test: !is_predicate,
        bounds: false,
        pair_bounds: false,
        count: false,
        initial_value: false,
        end_may_be_nil: true,
    }
}

/// The keyword arguments sequence substitution accepts.
pub open spec fn substitute_grammar(is_predicate: bool) -> OptionGrammar {
    OptionGrammar {
        subject: "sequence substitution",
        index_subject: "sequence substitution",
        from_end: true,
        test: !is_predicate,
        bounds: true,
        pair_bounds: false,
        count: true,
        initial_value: false,
        end_may_be_nil: true,
    }
}

fn make_substitute_grammar(is_predicate: bool) -> (r: OptionGrammar)
    ensures
        r == substitute_grammar(is_predicate),
{
    OptionGrammar {
        subject: "sequence substitution",
        index_subject: "sequence substitution",
        from_end: true,
        test: !is_predicate,
        bounds: true,
        pair_bounds: false,
        count: true,
        initial_value: false,
        end_may_be_nil: true,
    }
}

/// The keyword arguments sequence pair search accepts.
pub open spec fn pair_search_grammar() -> OptionGrammar {
    OptionGrammar {
        subject: "sequence pair search",
        index_subject: "sequence pair search",
        from_end: true,
        test: true,
        bounds: false,
        pair_bounds: true,
        count: false,
        initial_value: false,
        end_may_be_nil: true,
    }
}

fn make_pair_search_grammar() -> (r: OptionGrammar)
    ensures
        r == pair_search_grammar(),
{
    OptionGrammar {
        subject: "sequence pair search",
        index_subject: "sequence pair search",
        from_end: true,
        test: true,
        bounds: false,
        pair_bounds: true,
        count: false,
        initial_value: false,
        end_may_be_nil: true,
    }
}

/// The keyword arguments sequence search accepts.
pub open spec fn search_grammar() -> OptionGrammar {
    OptionGrammar {
        subject: "sequence search",
        index_subject: "sequence search",
        from_end: true,
        test: true,
        bounds: true,
        pair_bounds: false,
        count: false,
        initial_value: false,
        end_may_be_nil: true,
    }
}

fn make_search_grammar() -> (r: OptionGrammar)
    ensures
        r == search_grammar(),
{
    OptionGrammar {
        subject: "sequence search",
        index_subject: "sequence search",
        from_end: true,
        test: true,
        bounds: true,
        pair_bounds: false,
        count: false,
        initial_value: false,
        end_may_be_nil: true,
    }
}

/// The keyword arguments reduce accepts.
pub open spec fn reduce_grammar() -> OptionGrammar {
    OptionGrammar {
        subject: "reduce",
        index_subject: "reduce",
        from_end: true,
        test: false,
        bounds: true,
        pair_bounds: false,
        count: false,
        initial_value: true,
        end_may_be_nil: false,
    }
}

fn make_reduce_grammar() -> (r: OptionGrammar)
    ensures
        r == reduce_grammar(),
{
    OptionGrammar {
        subject: "reduce",
        index_subject: "reduce",
        from_end: true,
        test: false,
        bounds: true,
        pair_bounds: false,
        count: false,
        initial_value: true,
        end_may_be_nil: false,
    }
}

/// The keyword arguments sequence sort accepts.
pub open spec fn sort_grammar() -> OptionGrammar {
    OptionGrammar {
        subject: "sequence sort",
        index_subject: "sequence sort",
        from_end: false,
        test: false,
        bounds: false,
        pair_bounds: false,
        count: false,
        initial_value: false,
        end_may_be_nil: true,
    }
}

fn make_sort_grammar() -> (r: OptionGrammar)
    ensures
        r == sort_grammar(),
{
    OptionGrammar {
        subject: "sequence sort",
        index_subject: "sequence sort",
        from_end: false,
        test: false,
        bounds: false,
        pair_bounds: false,
        count: false,
        initial_value: false,
        end_may_be_nil: true,
    }
}

/// The keyword arguments merge accepts.
pub open spec fn merge_grammar() -> OptionGrammar {
    OptionGrammar {
        subject: "merge",
        index_subject: "merge",
        from_end: false,
        test: false,
        bounds: false,
        pair_bounds: false,
        count: false,
        initial_value: false,
        end_may_be_nil: true,
    }
}

fn make_merge_grammar() -> (r: OptionGrammar)
    ensures
        r == merge_grammar(),
{
    OptionGrammar {
        subject: "merge",
        index_subject: "merge",
        from_end: false,
        test: false,
        bounds: false,
        pair_bounds: false,
        count: false,
        initial_value: false,
        end_may_be_nil: true,
    }
}

/// The keyword arguments list set operation accepts.
pub open spec fn list_set_grammar() -> OptionGrammar {
    OptionGrammar {
        subject: "list set operation",
        index_subject: "list set operation",
        from_end: false,
        test: true,
        bounds: false,
        pair_bounds: false,
        count: false,
        initial_value: false,
        end_may_be_nil: true,
    }
}

fn make_list_set_grammar() -> (r: OptionGrammar)
    ensures
        r == list_set_grammar(),
{
    OptionGrammar {
        subject: "list set operation",
        index_subject: "list set operation",
        from_end: false,
        test: true,
        bounds: false,
        pair_bounds: false,
        count: false,
        initial_value: false,
        end_may_be_nil: true,
    }
}

/// The keyword arguments sequence removal accepts.
pub open spec fn removal_grammar(is_predicate: bool, removes_duplicates: bool) -> OptionGrammar {
    OptionGrammar {
        subject: "sequence removal",
        index_subject: "sequence removal",
        from_end: true,
        test: !is_predicate,
        bounds: true,
        pair_bounds: false,
        count: !removes_duplicates,
        initial_value: false,
        end_may_be_nil: true,
    }
}

fn make_removal_grammar(is_predicate: bool, removes_duplicates: bool) -> (r: OptionGrammar)
    ensures
        r == removal_grammar(is_predicate, removes_duplicates),
{
    OptionGrammar {
        subject: "sequence removal",
        index_subject: "sequence removal",
        from_end: true,
        test: !is_predicate,
        bounds: true,
        pair_bounds: false,
        count: !removes_duplicates,
        initial_value: false,
        end_may_be_nil: true,
    }
}

/// The options of `member`, `adjoin` and friends.
pub struct ListMembershipOptions {
    pub test: Option<Value>,
    pub test_not: Option<Value>,
    pub key: Option<Value>,
}

/// The options of `assoc`, `rassoc` and friends.
pub struct AssociationSearchOptions {
    pub test: Option<Value>,
    pub test_not: Option<Value>,
    pub key: Option<Value>,
}

/// The options of `union`, `intersection` and friends.
pub struct ListSetOptions {
    pub test: Option<Value>,
    pub test_not: Option<Value>,
    pub key: Option<Value>,
}

/// The options of `substitute` and friends.
pub struct SequenceSubstituteOptions {
    pub from_end: bool,
    pub test: Option<Value>,
    pub test_not: Option<Value>,
    pub key: Option<Value>,
    pub start: usize,
    pub end: Option<usize>,
    pub count: Option<usize>,
}

/// The options of `mismatch` and `search`.
pub struct SequencePairSearchOptions {
    pub from_end: bool,
    pub test: Option<Value>,
    pub test_not: Option<Value>,
    pub key: Option<Value>,
    pub start1: usize,
    pub end1: Option<usize>,
    pub start2: usize,
    pub end2: Option<usize>,
}

/// The options of `find`, `position` and `count`.
pub struct SequenceSearchOptions {
    pub from_end: bool,
    pub test: Option<Value>,
    pub test_not: Option<Value>,
    pub key: Option<Value>,
    pub start: usize,
    pub end: Option<usize>,
}

/// The options of `reduce`.
pub struct SequenceReduceOptions {
    pub from_end: bool,
    pub start: usize,
    pub end: Option<usize>,
    pub initial_value: Option<Value>,
    pub key: Option<Value>,
}

/// The options of `remove`, `delete`, `remove-duplicates` and friends.
pub struct SequenceRemoveOptions {
    pub from_end: bool,
    pub test: Option<Value>,
    pub test_not: Option<Value>,
    pub key: Option<Value>,
    pub start: usize,
    pub end: Option<usize>,
    pub count: Option<usize>,
}

impl Clone for SequenceRemoveOptions {
    fn clone(&self) -> (r: Self)
        ensures
            r == *self,
    {
        SequenceRemoveOptions {
            from_end: self.from_end,
            test: match &self.test {
                Some(v) => Some(v.clone()),
                None => None,
            },
            test_not: match &self.test_not {
                Some(v) => Some(v.clone()),
                None => None,
            },
            key: match &self.key {
                Some(v) => Some(v.clone()),
                None => None,
            },
            start: self.start,
            end: self.end,
            count: self.count,
        }
    }
}

/// Reads the keyword arguments of a list membership function; `:test` and
/// `:test-not` are refused for the `-if` forms.
pub fn parse_list_membership_options(options: &[Value], is_predicate: bool, span: Span) -> (r: Result<
    ListMembershipOptions,
    RuntimeError,
>)
    ensures
        match options_outcome(membership_grammar(is_predicate), options@) {
            Ok(o) => r matches Ok(p) && p.test == o.test && p.test_not == o.test_not && p.key == o.key,
            Err(f) => r matches Err(e) && failure_error(membership_grammar(is_predicate), f, span, e),
        },
{
    let g = make_membership_grammar(is_predicate);
    let o = parse_keyword_options(options, &g, span)?;
    Ok(ListMembershipOptions { test: o.test, test_not: o.test_not, key: o.key })
}

/// Reads the keyword arguments of an association search; `:test` and
/// `:test-not` are refused for the `-if` forms.
pub fn parse_association_search_options(options: &[Value], is_predicate: bool, span: Span) -> (r: Result<
    AssociationSearchOptions,
    RuntimeError,
>)
    ensures
        match options_outcome(association_grammar(is_predicate), options@) {
            Ok(o) => r matches Ok(p) && p.test == o.test && p.test_not == o.test_not && p.key == o.key,
            Err(f) => r matches Err(e) && failure_error(association_grammar(is_predicate), f, span, e),
        },
{
    let g = make_association_grammar(is_predicate);
    let o = parse_keyword_options(options, &g, span)?;
    Ok(AssociationSearchOptions { test: o.test, test_not: o.test_not, key: o.key })
}

/// Reads the keyword arguments of a list set operation.
pub fn parse_list_set_options(options: &[Value], span: Span) -> (r: Result<ListSetOptions, RuntimeError>)
    ensures
        match options_outcome(list_set_grammar(), options@) {
            Ok(o) => r matches Ok(p) && p.test == o.test && p.test_not == o.test_not && p.key == o.key,
            Err(f) => r matches Err(e) && failure_error(list_set_grammar(), f, span, e),
        },
{
    let g = make_list_set_grammar();
    let o = parse_keyword_options(options, &g, span)?;
    Ok(ListSetOptions { test: o.test, test_not: o.test_not, key: o.key })
}

/// Reads the keyword arguments of a substitution.
pub fn parse_sequence_substitute_options(options: &[Value], is_predicate: bool, span: Span) -> (r: Result<
    SequenceSubstituteOptions,
    RuntimeError,
>)
    ensures
        match options_outcome(substitute_grammar(is_predicate), options@) {
            Ok(o) => r matches Ok(p) && p.from_end == o.from_end && p.test == o.test && p.test_not
                == o.test_not && p.key == o.key && p.start == o.start && p.end == o.end && p.count
                == o.count,
            Err(f) => r matches Err(e) && failure_error(substitute_grammar(is_predicate), f, span, e),
        },
{
    let g = make_substitute_grammar(is_predicate);
    let o = parse_keyword_options(options, &g, span)?;
    Ok(
        SequenceSubstituteOptions {
            from_end: o.from_end,
            test: o.test,
            test_not: o.test_not,
            key: o.key,
            start: o.start,
            end: o.end,
            count: o.count,
        },
    )
}

/// Reads the keyword arguments of a search over two sequences.
pub fn parse_sequence_pair_search_options(options: &[Value], span: Span) -> (r: Result<
    SequencePairSearchOptions,
    RuntimeError,
>)
    ensures
        match options_outcome(pair_search_grammar(), options@) {
            Ok(o) => r matches Ok(p) && p.from_end == o.from_end && p.test == o.test && p.test_not
                == o.test_not && p.key == o.key && p.start1 == o.start && p.end1 == o.end
                && p.start2 == o.start2 && p.end2 == o.end2,
            Err(f) => r matches Err(e) && failure_error(pair_search_grammar(), f, span, e),
        },
{
    let g = make_pair_search_grammar();
    let o = parse_keyword_options(options, &g, span)?;
    Ok(
        SequencePairSearchOptions {
            from_end: o.from_end,
            test: o.test,
            test_not: o.test_not,
            key: o.key,
            start1: o.start,
            end1: o.end,
            start2: o.start2,
            end2: o.end2,
        },
    )
}

/// Reads the keyword arguments of a search over one sequence.
pub fn parse_sequence_search_options(options: &[Value], span: Span) -> (r: Result<
    SequenceSearchOptions,
    RuntimeError,
>)
    ensures
        match options_outcome(search_grammar(), options@) {
            Ok(o) => r matches Ok(p) && p.from_end == o.from_end && p.test == o.test && p.test_not
                == o.test_not && p.key == o.key && p.start == o.start && p.end == o.end,
            Err(f) => r matches Err(e) && failure_error(search_grammar(), f, span, e),
        },
{
    let g = make_search_grammar();
    let o = parse_keyword_options(options, &g, span)?;
    Ok(
        SequenceSearchOptions {
            from_end: o.from_end,
            test: o.test,
            test_not: o.test_not,
            key: o.key,
            start: o.start,
            end: o.end,
        },
    )
}

/// Reads the keyword arguments of `reduce`; its `:end` needs an integer.
pub fn parse_sequence_reduce_options(options: &[Value], span: Span) -> (r: Result<
    SequenceReduceOptions,
    RuntimeError,
>)
    ensures
        match options_outcome(reduce_grammar(), options@) {
            Ok(o) => r matches Ok(p) && p.from_end == o.from_end && p.start == o.start && p.end
                == o.end && p.initial_value == o.initial_value && p.key == o.key,
            Err(f) => r matches Err(e) && failure_error(reduce_grammar(), f, span, e),
        },
{
    let g = make_reduce_grammar();
    let o = parse_keyword_options(options, &g, span)?;
    Ok(
        SequenceReduceOptions {
            from_end: o.from_end,
            start: o.start,
            end: o.end,
            initial_value: o.initial_value,
            key: o.key,
        },
    )
}

/// Reads the keyword arguments of a removal; `:test` and `:test-not` are
/// refused for the `-if` forms, `:count` for the duplicate removals.
pub fn parse_sequence_remove_options(
    options: &[Value],
    is_predicate: bool,
    removes_duplicates: bool,
    span: Span,
) -> (r: Result<SequenceRemoveOptions, RuntimeError>)
    ensures
        match options_outcome(removal_grammar(is_predicate, removes_duplicates), options@) {
            Ok(o) => r matches Ok(p) && p.from_end == o.from_end && p.test == o.test && p.test_not
                == o.test_not && p.key == o.key && p.start == o.start && p.end == o.end && p.count
                == o.count,
            Err(f) => r matches Err(e) && failure_error(
                removal_grammar(is_predicate, removes_duplicates),
                f,
                span,
                e,
            ),
        },
{
    let g = make_removal_grammar(is_predicate, removes_duplicates);
    let o = parse_keyword_options(options, &g, span)?;
    Ok(
        SequenceRemoveOptions {
            from_end: o.from_end,
            test: o.test,
            test_not: o.test_not,
            key: o.key,
            start: o.start,
            end: o.end,
            count: o.count,
        },
    )
}

/// Reads the keyword arguments of `sort`: only `:key`.
pub fn parse_sequence_sort_key(options: &[Value], span: Span) -> (r: Result<Option<Value>, RuntimeError>)
    ensures
        match options_outcome(sort_grammar(), options@) {
            Ok(o) => r == Ok::<Option<Value>, RuntimeError>(o.key),
            Err(f) => r matches Err(e) && failure_error(sort_grammar(), f, span, e),
        },
{
    let g = make_sort_grammar();
    let o = parse_keyword_options(options, &g, span)?;
    Ok(o.key)
}

/// Reads the keyword arguments of `merge`: only `:key`.
pub fn parse_sequence_merge_key(options: &[Value], span: Span) -> (r: Result<Option<Value>, RuntimeError>)
    ensures
        match options_outcome(merge_grammar(), options@) {
            Ok(o) => r == Ok::<Option<Value>, RuntimeError>(o.key),
            Err(f) => r matches Err(e) && failure_error(merge_grammar(), f, span, e),
        },
{
    let g = make_merge_grammar();
    let o = parse_keyword_options(options, &g, span)?;
    Ok(o.key)
}

/// Reads an index argument of `reduce` and the searches.
pub fn parse_sequence_index(option: &str, value: &Value, span: Span) -> (r: Result<usize, RuntimeError>)
    ensures
        match index_outcome(*value) {
            Ok(i) => r == Ok::<usize, RuntimeError>(i),
            Err(f) => r matches Err(e) && index_error("reduce"@, option@, f, span, e),
        },
{
    read_index("reduce", option, value, span)
}

/// Reads an index argument of a substitution.
pub fn sequence_substitute_index(option: &str, value: &Value, span: Span) -> (r: Result<usize, RuntimeError>)
    ensures
        match index_outcome(*value) {
            Ok(i) => r == Ok::<usize, RuntimeError>(i),
            Err(f) => r matches Err(e) && index_error("sequence substitution"@, option@, f, span, e),
        },
{
    read_index("sequence substitution", option, value, span)
}

/// Reads an index argument of a substitution that may be `NIL`.
pub fn sequence_substitute_optional_index(option: &str, value: &Value, span: Span) -> (r: Result<
    Option<usize>,
    RuntimeError,
>)
    ensures
        match optional_index_outcome(*value) {
            Ok(i) => r == Ok::<Option<usize>, RuntimeError>(i),
            Err(f) => r matches Err(e) && index_error("sequence substitution"@, option@, f, span, e),
        },
{
    read_optional_index("sequence substitution", option, value, span)
}

/// The removal options with the given end.
pub fn sequence_removal_options(options: &SequenceRemoveOptions, end: usize) -> (r: SequenceRemoveOptions)
    ensures
        r == (SequenceRemoveOptions { end: Some(end), ..*options }),
{
    let mut r = options.clone();
    r.end = Some(end);
    r
}

/// The kind of a sequence.
#[derive(Clone, Copy, Debug, PartialEq, Eq)]
pub enum SequenceKind {
    List,
    Vector,
    String,
}

/// Whether `vs` are the characters `cs` as character values.
pub open spec fn character_values(vs: Seq<Value>, cs: Seq<char>) -> bool {
    vs.len() == cs.len() && forall|i: int| 0 <= i < cs.len() ==> vs[i] == Value::Character(cs[i])
}

/// Whether a value is a sequence: a list, a vector or a string.
pub open spec fn is_sequence(v: Value) -> bool {
    v is Nil || v is List || v is Vector || v is String
}

/// Whether `items` are the elements of the sequence `v`.
pub open spec fn elements_of(v: Value, items: Seq<Value>) -> bool {
    match v {
        Value::Nil => items.len() == 0,
        Value::List(l) => items == l@,
        Value::Vector(l) => items == l@,
        Value::String(s) => character_values(items, s@),
        _ => false,
    }
}

/// The text made of character values, or the first value that is not a
/// character.
pub open spec fn text_of_values(items: Seq<Value>) -> Result<Seq<char>, Value>
    decreases items.len(),
{
    if items.len() == 0 {
        Ok(Seq::empty())
    } else {
        match text_of_values(items.drop_last()) {
            Err(v) => Err(v),
            Ok(cs) => match items.last() {
                Value::Character(c) => Ok(cs.push(c)),
                other => Err(other),
            },
        }
    }
}

/// Copies the elements of a shared vector.
pub fn copy_values(items: &Vec<Value>) -> (r: Vec<Value>)
    ensures
        r@ == items@,
{
    let mut out: Vec<Value> = Vec::new();
    let mut i: usize = 0;
    while i < items.len()
        invariant
            i <= items.len(),
            out@ == items@.take(i as int),
        decreases items.len() - i,
    {
        out.push(items[i].clone());
        proof {
            assert(items@.take(i as int).push(items@[i as int]) =~= items@.take(i + 1));
        }
        i = i + 1;
    }
    proof {
        assert(items@.take(items.len() as int) =~= items@);
    }
    out
}

/// The characters of a string as character values.
pub fn string_values(s: &String) -> (r: Vec<Value>)
    ensures
        character_values(r@, s@),
{
    let cs = chars_of(s.as_str());
    let mut out: Vec<Value> = Vec::new();
    let mut i: usize = 0;
    while i < cs.len()
        invariant
            i <= cs.len(),
            cs@ == s@,
            out@.len() == i,
            forall|k: int| 0 <= k < i ==> out@[k] == Value::Character(cs@[k]),
        decreases cs.len() - i,
    {
        out.push(Value::character(cs[i]));
        i = i + 1;
    }
    out
}

/// The string made of character values (see `text_of_values`); a type
/// error naming the first value that is not a character.
pub fn string_of_values(items: Vec<Value>, span: Span) -> (r: Result<Value, RuntimeError>)
    ensures
        match text_of_values(items@) {
            Ok(cs) => r matches Ok(Value::String(t)) && t@ == cs,
            Err(v) => r matches Err(e) && is_type_error(e, "CHARACTER"@, kind_name_of(v), span),
        },
{
    let mut text: Vec<char> = Vec::new();
    let mut i: usize = 0;
    while i < items.len()
        invariant
            i <= items.len(),
            text_of_values(items@.take(i as int)) == Ok::<Seq<char>, Value>(text@),
        decreases items.len() - i,
    {
        proof {
            assert(items@.take(i + 1).drop_last() =~= items@.take(i as int));
        }
        match &items[i] {
            Value::Character(c) => {
                text.push(*c);
            },
            other => {
                proof {
                    lemma_text_failure_sticks(items@, (i + 1) as nat);
                }
                return Err(type_error("CHARACTER", other, span));
            },
        }
        i = i + 1;
    }
    proof {
        assert(items@.take(items.len() as int) =~= items@);
    }
    Ok(Value::String(string_from(&text)))
}

proof fn lemma_text_failure_sticks(items: Seq<Value>, i: nat)
    requires
        i <= items.len(),
        text_of_values(items.take(i as int)) is Err,
    ensures
        text_of_values(items) == text_of_values(items.take(i as int)),
    decreases items.len() - i,
{
    if i < items.len() {
        assert(items.take((i + 1) as int).drop_last() =~= items.take(i as int));
        lemma_text_failure_sticks(items, i + 1);
    } else {
        assert(items.take(i as int) =~= items);
    }
}

/// The elements of a sequence (see `elements_of`); a type error for
/// any other value.
pub fn sequence_items(value: &Value, span: Span) -> (r: Result<Vec<Value>, RuntimeError>)
    ensures
        is_sequence(*value) ==> (r matches Ok(v) && elements_of(*value, v@)),
        !is_sequence(*value) ==> (r matches Err(e) && is_type_error(e, "SEQUENCE"@, kind_name_of(*value), span)),
{
    match value {
        Value::Nil => Ok(Vec::new()),
        Value::List(items) => Ok(copy_values(items)),
        Value::Vector(items) => Ok(copy_values(items)),
        Value::String(s) => Ok(string_values(s)),
        _ => Err(type_error("SEQUENCE", value, span)),
    }
}

/// The result kind `merge` builds for a result type: `NIL`, `LIST`,
/// `VECTOR` (also `SIMPLE-VECTOR`) or `STRING` (also `SIMPLE-STRING`).
pub open spec fn merge_kind_of(v: Value) -> Option<Seq<char>> {
    match symbol_name_of(v) {
        None => None,
        Some(n) => {
            let u = normalize(n);
            if u == "NIL"@ {
                Some("NIL"@)
            } else if u == "LIST"@ {
                Some("LIST"@)
            } else if u == "VECTOR"@ || u == "SIMPLE-VECTOR"@ {
                Some("VECTOR"@)
            } else if u == "STRING"@ || u == "BASE-STRING"@ || u == "SIMPLE-STRING"@ || u == "SIMPLE-BASE-STRING"@ {
                Some("STRING"@)
            } else {
                None
            }
        },
    }
}

/// The result kind of `merge` (see `merge_kind_of`).
pub fn merge_result_kind(result_type: &Value, span: Span) -> (r: Result<&'static str, RuntimeError>)
    ensures
        match merge_kind_of(*result_type) {
            Some(k) => r matches Ok(s) && s@ == k,
            None => r matches Err(e) && is_invalid(
                e,
                "merge result type must be LIST, VECTOR, STRING, or NIL"@,
                span,
            ),
        },
{
    let message = "merge result type must be LIST, VECTOR, STRING, or NIL";
    let name = match result_type.symbol_name() {
        Some(n) => n,
        None => return Err(invalid(message, span)),
    };
    let v = chars_of(name.as_str());
    let u = normalize_text(&v);
    if text_is(&u, "NIL") {
        Ok("NIL")
    } else if text_is(&u, "LIST") {
        Ok("LIST")
    } else if text_is(&u, "VECTOR") || text_is(&u, "SIMPLE-VECTOR") {
        Ok("VECTOR")
    } else if text_is(&u, "STRING") || text_is(&u, "BASE-STRING") || text_is(&u, "SIMPLE-STRING") || text_is(
        &u,
        "SIMPLE-BASE-STRING",
    ) {
        Ok("STRING")
    } else {
        Err(invalid(message, span))
    }
}

/// Builds the result of `merge` of the given kind.
pub fn sequence_merge_result(result_kind: &str, merged: Vec<Value>, span: Span) -> (r: Result<
    Value,
    RuntimeError,
>)
    requires
        result_kind@ == "NIL"@ || result_kind@ == "LIST"@ || result_kind@ == "VECTOR"@
            || result_kind@ == "STRING"@,
    ensures
        result_kind@ == "NIL"@ ==> r == Ok::<Value, RuntimeError>(Value::Nil),
        result_kind@ != "NIL"@ && result_kind@ == "LIST"@ ==> (if merged.len() == 0 {
            r == Ok::<Value, RuntimeError>(Value::Nil)
        } else {
            r matches Ok(Value::List(v)) && v@ == merged@
        }),
        result_kind@ != "NIL"@ && result_kind@ != "LIST"@ && result_kind@ == "VECTOR"@ ==> (r matches Ok(
            Value::Vector(v),
        ) && v@ == merged@),
        result_kind@ != "NIL"@ && result_kind@ != "LIST"@ && result_kind@ != "VECTOR"@ ==> match text_of_values(merged@) {
            Ok(cs) => r matches Ok(Value::String(t)) && t@ == cs,
            Err(v) => r matches Err(e) && is_type_error(e, "CHARACTER"@, kind_name_of(v), span),
        },
{
    let k = chars_of(result_kind);
    if text_is(&k, "NIL") {
        Ok(Value::Nil)
    } else if text_is(&k, "LIST") {
        Ok(Value::list(merged))
    } else if text_is(&k, "VECTOR") {
        Ok(Value::vector(merged))
    } else {
        string_of_values(merged, span)
    }
}

/// Builds a sorted sequence of the kind of the sequence it sorts.
pub fn sequence_sort_result(kind: SequenceKind, sorted: Vec<Value>, span: Span) -> (r: Result<
    Value,
    RuntimeError,
>)
    ensures
        kind == SequenceKind::List ==> (if sorted.len() == 0 {
            r == Ok::<Value, RuntimeError>(Value::Nil)
        } else {
            r matches Ok(Value::List(v)) && v@ == sorted@
        }),
        kind == SequenceKind::Vector ==> (r matches Ok(Value::Vector(v)) && v@ == sorted@),
        kind == SequenceKind::String ==> match text_of_values(sorted@) {
            Ok(cs) => r matches Ok(Value::String(t)) && t@ == cs,
            Err(v) => r matches Err(e) && is_type_error(e, "CHARACTER"@, kind_name_of(v), span),
        },
{
    match kind {
        SequenceKind::List => Ok(Value::list(sorted)),
        SequenceKind::Vector => Ok(Value::vector(sorted)),
        SequenceKind::String => string_of_values(sorted, span),
    }
}

/// The starting value of `reduce`: the initial value when given, else the
/// key of the first element, else (an empty sequence) an error.
pub fn reduce_initial_value<F: Fn(&Value) -> Result<Value, RuntimeError>>(
    initial_value: Option<Value>,
    first_value: Option<&Value>,
    apply_key: F,
    span: Span,
) -> (r: Result<Value, RuntimeError>)
    requires
        (first_value matches Some(f) ==> apply_key.requires((f,))),
    ensures
        initial_value matches Some(v) ==> r == Ok::<Value, RuntimeError>(v),
        initial_value is None && first_value is None ==> (r matches Err(e) && is_invalid(
            e,
            "reduce of an empty sequence"@,
            span,
        )),
        initial_value is None ==> (first_value matches Some(f) ==> apply_key.ensures((f,), r)),
{
    match initial_value {
        Some(v) => Ok(v),
        None => match first_value {
            None => Err(invalid("reduce of an empty sequence", span)),
            Some(f) => apply_key(f),
        },
    }
}

} // verus!


