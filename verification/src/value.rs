//! Lisp values as the evaluator handles them.
use vstd::prelude::*;
use std::rc::Rc;
use crate::syntax::{normalize, normalize_name};
use crate::text::{chars_of, owned, string_from, strip_colon, without_colon};
use crate::numbers::{lowest_terms, reduce_ratio};

verus! {

/// A Lisp value. Conses, vectors and multiple values share their contents.
/// A float is carried by the decimal text it was read from.
#[derive(Debug, PartialEq)]
pub enum Value {
    Nil,
    Boolean(bool),
    Integer(i64),
    Rational { numerator: i128, denominator: i128 },
    Float(String),
    Character(char),
    String(String),
    Symbol(String),
    SymbolExact(String),
    Keyword(String),
    KeywordExact(String),
    UninternedSymbol(String),
    Package(String),
    List(Rc<Vec<Value>>),
    DottedList { items: Rc<Vec<Value>>, tail: Rc<Value> },
    Vector(Rc<Vec<Value>>),
    Values(Rc<Vec<Value>>),
    Restart(String),
    Unbound,
}

impl Clone for Value {
    fn clone(&self) -> (r: Value)
        ensures
            r == *self,
    {
        match self {
            Value::Nil => Value::Nil,
            Value::Boolean(b) => Value::Boolean(*b),
            Value::Integer(i) => Value::Integer(*i),
            Value::Rational { numerator, denominator } => Value::Rational {
                numerator: *numerator,
                denominator: *denominator,
            },
            Value::Float(t) => Value::Float(t.clone()),
            Value::Character(c) => Value::Character(*c),
            Value::String(s) => Value::String(s.clone()),
            Value::Symbol(s) => Value::Symbol(s.clone()),
            Value::SymbolExact(s) => Value::SymbolExact(s.clone()),
            Value::Keyword(s) => Value::Keyword(s.clone()),
            Value::KeywordExact(s) => Value::KeywordExact(s.clone()),
            Value::UninternedSymbol(s) => Value::UninternedSymbol(s.clone()),
            Value::Package(s) => Value::Package(s.clone()),
            Value::List(items) => Value::List(Rc::clone(items)),
            Value::DottedList { items, tail } => Value::DottedList {
                items: Rc::clone(items),
                tail: Rc::clone(tail),
            },
            Value::Vector(items) => Value::Vector(Rc::clone(items)),
            Value::Values(items) => Value::Values(Rc::clone(items)),
            Value::Restart(s) => Value::Restart(s.clone()),
            Value::Unbound => Value::Unbound,
        }
    }
}

/// The name of a value that designates a symbol: symbols and keywords by
/// their name, `NIL` and `T` by theirs.
pub open spec fn symbol_name_of(v: Value) -> Option<Seq<char>> {
    match v {
        Value::Nil => Some("NIL"@),
        Value::Boolean(b) => if b {
            Some("T"@)
        } else {
            Some("NIL"@)
        },
        Value::Symbol(s) => Some(s@),
        Value::SymbolExact(s) => Some(s@),
        Value::Keyword(s) => Some(s@),
        Value::KeywordExact(s) => Some(s@),
        Value::UninternedSymbol(s) => Some(s@),
        _ => None,
    }
}

/// The elements of a proper list.
pub open spec fn list_items_of(v: Value) -> Option<Seq<Value>> {
    match v {
        Value::Nil => Some(Seq::empty()),
        Value::List(items) => Some(items@),
        _ => None,
    }
}

/// Whether a value counts as true.
pub open spec fn truthy(v: Value) -> bool {
    !(v is Nil) && !(v matches Value::Boolean(b) && !b)
}

/// The name of the type of a value, as error reports spell it.
pub open spec fn kind_name_of(v: Value) -> Seq<char> {
    match v {
        Value::Nil => "NULL"@,
        Value::Boolean(_) => "BOOLEAN"@,
        Value::Integer(_) => "INTEGER"@,
        Value::Rational { .. } => "RATIO"@,
        Value::Float(_) => "FLOAT"@,
        Value::Character(_) => "CHARACTER"@,
        Value::String(_) => "STRING"@,
        Value::Symbol(_) => "SYMBOL"@,
        Value::SymbolExact(_) => "SYMBOL"@,
        Value::Keyword(_) => "KEYWORD"@,
        Value::KeywordExact(_) => "KEYWORD"@,
        Value::UninternedSymbol(_) => "SYMBOL"@,
        Value::Package(_) => "PACKAGE"@,
        Value::List(_) => "CONS"@,
        Value::DottedList { .. } => "CONS"@,
        Value::Vector(_) => "VECTOR"@,
        Value::Values(_) => "VALUES"@,
        Value::Restart(_) => "RESTART"@,
        Value::Unbound => "UNBOUND"@,
    }
}

/// The value of the ratio `n/d`: in lowest terms with a positive
/// denominator, an integer when the denominator is one. None for a zero
/// denominator or a result outside the representable range.
pub open spec fn ratio_value_ok(n: int, d: int, v: Value) -> bool {
    match lowest_terms(n, d) {
        None => false,
        Some(t) => if t.1 == 1 && i64::MIN <= t.0 <= i64::MAX {
            v == Value::Integer(t.0 as i64)
        } else {
            v == Value::Rational { numerator: t.0 as i128, denominator: t.1 as i128 }
        },
    }
}

/// Whether the ratio `n/d` has a representable value.
pub open spec fn ratio_representable(n: int, d: int) -> bool {
    match lowest_terms(n, d) {
        None => false,
        Some(t) => i128::MIN <= t.0 <= i128::MAX && t.1 <= i128::MAX,
    }
}

/// `EQ` on values: atoms of the same kind and content are the same object;
/// strings, conses and vectors are never known to be the same object.
pub open spec fn same_object(a: Value, b: Value) -> bool {
    match (a, b) {
        (Value::Nil, Value::Nil) => true,
        (Value::Unbound, Value::Unbound) => true,
        (Value::Boolean(x), Value::Boolean(y)) => x == y,
        (Value::Integer(x), Value::Integer(y)) => x == y,
        (Value::Character(x), Value::Character(y)) => x == y,
        (Value::Symbol(x), Value::Symbol(y)) => x@ == y@,
        (Value::SymbolExact(x), Value::SymbolExact(y)) => x@ == y@,
        (Value::Keyword(x), Value::Keyword(y)) => x@ == y@,
        (Value::KeywordExact(x), Value::KeywordExact(y)) => x@ == y@,
        (Value::Package(x), Value::Package(y)) => x@ == y@,
        (Value::Restart(x), Value::Restart(y)) => x@ == y@,
        _ => false,
    }
}

fn same_string(a: &String, b: &String) -> (r: bool)
    ensures
        r == (a@ == b@),
{
    String::eq(a, b)
}

impl Value {
    /// A symbol named by normalizing `name`.
    pub fn symbol(name: &str) -> (r: Value)
        ensures
            r matches Value::Symbol(s) && s@ == normalize(name@),
    {
        Value::Symbol(normalize_name(name))
    }

    /// A symbol whose name is exactly `name`.
    pub fn symbol_exact(name: &str) -> (r: Value)
        ensures
            r matches Value::SymbolExact(s) && s@ == name@,
    {
        Value::SymbolExact(owned(name))
    }

    /// A keyword named by normalizing `name` (a leading colon is dropped).
    pub fn keyword(name: &str) -> (r: Value)
        ensures
            r matches Value::Keyword(s) && s@ == normalize(strip_colon(name@)),
    {
        let v = chars_of(name);
        let stripped = without_colon(&v);
        let n = crate::syntax::normalize_text(&stripped);
        Value::Keyword(string_from(&n))
    }

    /// A keyword whose name is exactly `name`.
    pub fn keyword_exact(name: &str) -> (r: Value)
        ensures
            r matches Value::KeywordExact(s) && s@ == name@,
    {
        Value::KeywordExact(owned(name))
    }

    /// An uninterned symbol.
    pub fn uninterned_symbol(name: &str) -> (r: Value)
        ensures
            r matches Value::UninternedSymbol(s) && s@ == name@,
    {
        Value::UninternedSymbol(owned(name))
    }

    /// A character value.
    pub fn character(c: char) -> (r: Value)
        ensures
            r == Value::Character(c),
    {
        Value::Character(c)
    }

    /// A string value.
    pub fn string(text: &str) -> (r: Value)
        ensures
            r matches Value::String(s) && s@ == text@,
    {
        Value::String(owned(text))
    }

    /// A package value.
    pub fn package(name: &str) -> (r: Value)
        ensures
            r matches Value::Package(s) && s@ == name@,
    {
        Value::Package(owned(name))
    }

    /// A restart object for a restart of the given name.
    pub fn restart(name: &str) -> (r: Value)
        ensures
            r matches Value::Restart(s) && s@ == name@,
    {
        Value::Restart(owned(name))
    }

    /// `T` for true, `NIL` for false.
    pub fn boolean(b: bool) -> (r: Value)
        ensures
            b ==> r == Value::Boolean(true),
            !b ==> r == Value::Nil,
    {
        if b {
            Value::Boolean(true)
        } else {
            Value::Nil
        }
    }

    /// A proper list of the given elements; the empty list is `NIL`.
    pub fn list(items: Vec<Value>) -> (r: Value)
        ensures
            items.len() == 0 ==> r == Value::Nil,
            items.len() > 0 ==> (r matches Value::List(v) && v@ == items@),
    {
        if items.len() == 0 {
            Value::Nil
        } else {
            Value::List(Rc::new(items))
        }
    }

    /// A simple vector of the given elements.
    pub fn vector(items: Vec<Value>) -> (r: Value)
        ensures
            r matches Value::Vector(v) && v@ == items@,
    {
        Value::Vector(Rc::new(items))
    }

    /// Multiple values.
    pub fn values(items: Vec<Value>) -> (r: Value)
        ensures
            r matches Value::Values(v) && v@ == items@,
    {
        Value::Values(Rc::new(items))
    }

    /// A list of `items` ending in `tail`.
    pub fn dotted_list(items: Vec<Value>, tail: Value) -> (r: Value)
        ensures
            tail is Nil ==> (if items.len() == 0 {
                r == Value::Nil
            } else {
                r matches Value::List(v) && v@ == items@
            }),
            !(tail is Nil) && items.len() == 0 ==> r == tail,
            !(tail is Nil) && items.len() > 0 ==> (r matches Value::DottedList { items: v, tail: t }
                && v@ == items@ && *t == tail),
    {
        if let Value::Nil = tail {
            Value::list(items)
        } else if items.len() == 0 {
            tail
        } else {
            Value::DottedList { items: Rc::new(items), tail: Rc::new(tail) }
        }
    }

    /// The ratio `numerator/denominator` (see `ratio_value_ok`).
    pub fn rational(numerator: i128, denominator: i128) -> (r: Option<Value>)
        ensures
            match r {
                Some(v) => ratio_value_ok(numerator as int, denominator as int, v)
                    && ratio_representable(numerator as int, denominator as int),
                None => !ratio_representable(numerator as int, denominator as int),
            },
    {
        match reduce_ratio(numerator, denominator) {
            None => None,
            Some((p, q)) => {
                if q == 1 && i64::MIN as i128 <= p && p <= i64::MAX as i128 {
                    Some(Value::Integer(p as i64))
                } else {
                    Some(Value::Rational { numerator: p, denominator: q })
                }
            },
        }
    }

    /// Whether the value counts as true.
    pub fn is_truthy(&self) -> (r: bool)
        ensures
            r == truthy(*self),
    {
        match self {
            Value::Nil => false,
            Value::Boolean(b) => *b,
            _ => true,
        }
    }

    /// The name of a symbol designator (see `symbol_name_of`).
    pub fn symbol_name(&self) -> (r: Option<String>)
        ensures
            match r {
                Some(s) => symbol_name_of(*self) == Some(s@),
                None => symbol_name_of(*self) is None,
            },
    {
        match self {
            Value::Nil => Some(owned("NIL")),
            Value::Boolean(b) => if *b {
                Some(owned("T"))
            } else {
                Some(owned("NIL"))
            },
            Value::Symbol(s) => Some(s.clone()),
            Value::SymbolExact(s) => Some(s.clone()),
            Value::Keyword(s) => Some(s.clone()),
            Value::KeywordExact(s) => Some(s.clone()),
            Value::UninternedSymbol(s) => Some(s.clone()),
            _ => None,
        }
    }

    /// The name of a symbol and whether it is held exactly (not normalized).
    pub fn symbol_reference(&self) -> (r: Option<(String, bool)>)
        ensures
            match r {
                Some(p) => match *self {
                    Value::Symbol(s) => p.0@ == s@ && !p.1,
                    Value::SymbolExact(s) => p.0@ == s@ && p.1,
                    Value::UninternedSymbol(s) => p.0@ == s@ && p.1,
                    Value::Nil => p.0@ == "NIL"@ && !p.1,
                    Value::Boolean(b) => b && p.0@ == "T"@ && !p.1,
                    _ => false,
                },
                None => !(*self is Symbol || *self is SymbolExact || *self is UninternedSymbol
                    || *self is Nil || *self matches Value::Boolean(true)),
            },
    {
        match self {
            Value::Symbol(s) => Some((s.clone(), false)),
            Value::SymbolExact(s) => Some((s.clone(), true)),
            Value::UninternedSymbol(s) => Some((s.clone(), true)),
            Value::Nil => Some((owned("NIL"), false)),
            Value::Boolean(b) => if *b {
                Some((owned("T"), false))
            } else {
                None
            },
            _ => None,
        }
    }

    /// The name of a restart object.
    pub fn restart_name(&self) -> (r: Option<String>)
        ensures
            match r {
                Some(s) => *self matches Value::Restart(n) && n@ == s@,
                None => !(*self is Restart),
            },
    {
        match self {
            Value::Restart(s) => Some(s.clone()),
            _ => None,
        }
    }

    /// The elements of a proper list.
    pub fn list_items(&self) -> (r: Option<Vec<Value>>)
        ensures
            match r {
                Some(v) => list_items_of(*self) == Some(v@),
                None => list_items_of(*self) is None,
            },
    {
        match self {
            Value::Nil => Some(Vec::new()),
            Value::List(items) => {
                let mut out: Vec<Value> = Vec::new();
                let mut i: usize = 0;
                while i < items.len()
                    invariant
                        i <= items.len(),
                        out@ == items@.take(i as int),
                    decreases items.len() - i,
                {
                    out.push(items[i].clone());
                    proof {
                        assert(items@.take(i as int).push(items@[i as int]) =~= items@.take(i + 1));
                    }
                    i = i + 1;
                }
                proof {
                    assert(items@.take(items.len() as int) =~= items@);
                }
                Some(out)
            },
            _ => None,
        }
    }

    /// The name of the type of the value.
    pub fn kind_name(&self) -> (r: &'static str)
        ensures
            r@ == kind_name_of(*self),
    {
        match self {
            Value::Nil => "NULL",
            Value::Boolean(_) => "BOOLEAN",
            Value::Integer(_) => "INTEGER",
            Value::Rational { .. } => "RATIO",
            Value::Float(_) => "FLOAT",
            Value::Character(_) => "CHARACTER",
            Value::String(_) => "STRING",
            Value::Symbol(_) => "SYMBOL",
            Value::SymbolExact(_) => "SYMBOL",
            Value::Keyword(_) => "KEYWORD",
            Value::KeywordExact(_) => "KEYWORD",
            Value::UninternedSymbol(_) => "SYMBOL",
            Value::Package(_) => "PACKAGE",
            Value::List(_) => "CONS",
            Value::DottedList { .. } => "CONS",
            Value::Vector(_) => "VECTOR",
            Value::Values(_) => "VALUES",
            Value::Restart(_) => "RESTART",
            Value::Unbound => "UNBOUND",
        }
    }

    /// `EQ` (see `same_object`).
    pub fn eq_value(&self, other: &Value) -> (r: bool)
        ensures
            r == same_object(*self, *other),
    {
        match (self, other) {
            (Value::Nil, Value::Nil) => true,
            (Value::Unbound, Value::Unbound) => true,
            (Value::Boolean(x), Value::Boolean(y)) => *x == *y,
            (Value::Integer(x), Value::Integer(y)) => *x == *y,
            (Value::Character(x), Value::Character(y)) => *x == *y,
            (Value::Symbol(x), Value::Symbol(y)) => same_string(x, y),
            (Value::SymbolExact(x), Value::SymbolExact(y)) => same_string(x, y),
            (Value::Keyword(x), Value::Keyword(y)) => same_string(x, y),
            (Value::KeywordExact(x), Value::KeywordExact(y)) => same_string(x, y),
            (Value::Package(x), Value::Package(y)) => same_string(x, y),
            (Value::Restart(x), Value::Restart(y)) => same_string(x, y),
            _ => false,
        }
    }
}

} // verus!
