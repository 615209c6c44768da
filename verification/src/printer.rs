//! The printed representation of values.
use vstd::prelude::*;
use crate::literals::{bar_quoted, escaped_symbol_atom};
use crate::text::{chars_of, join_text, string_from};
use crate::value::Value;

verus! {

broadcast use vstd::std_specs::vec::group_vec_axioms;

/// The digit character of a number below ten.
pub open spec fn digit_char(d: nat) -> char {
    (('0' as nat) + d) as char
}

/// The decimal digits of a natural number.
pub open spec fn digits_of(n: nat) -> Seq<char>
    decreases n,
{
    if n < 10 {
        seq![digit_char(n)]
    } else {
        digits_of(n / 10).push(digit_char(n % 10))
    }
}

/// The decimal text of an integer.
pub open spec fn decimal(i: int) -> Seq<char> {
    if i < 0 {
        seq!['-'] + digits_of((-i) as nat)
    } else {
        digits_of(i as nat)
    }
}

/// A string between double quotes, with quotes and backslashes escaped.
pub open spec fn string_literal(s: Seq<char>) -> Seq<char>
    decreases s.len(),
{
    if s.len() == 0 {
        seq!['"', '"']
    } else {
        let q = string_literal(s.drop_last());
        let c = s.last();
        if c == '"' || c == '\\' {
            q.drop_last().push('\\').push(c).push('"')
        } else {
            q.drop_last().push(c).push('"')
        }
    }
}

/// How a value prints.
pub open spec fn printed(v: Value) -> Seq<char>
    decreases v,
{
    match v {
        Value::Nil => "NIL"@,
        Value::Boolean(b) => if b {
            "T"@
        } else {
            "NIL"@
        },
        Value::Integer(i) => decimal(i as int),
        Value::Rational { numerator, denominator } => decimal(numerator as int) + seq!['/'] + decimal(
            denominator as int,
        ),
        Value::Float(t) => t@,
        Value::Character(c) => seq!['#', '\\', c],
        Value::String(s) => string_literal(s@),
        Value::Symbol(n) => n@,
        Value::SymbolExact(n) => bar_quoted(n@),
        Value::Keyword(n) => seq![':'] + n@,
        Value::KeywordExact(n) => seq![':'] + bar_quoted(n@),
        Value::UninternedSymbol(n) => seq!['#', ':'] + n@,
        Value::Package(n) => "#<PACKAGE "@ + n@ + seq!['>'],
        Value::List(items) => seq!['('] + printed_items(items@) + seq![')'],
        Value::DottedList { items, tail } => seq!['('] + printed_items(items@) + " . "@ + printed(
            *tail,
        ) + seq![')'],
        Value::Vector(items) => seq!['#', '('] + printed_items(items@) + seq![')'],
        Value::Values(items) => printed_items(items@),
        Value::Restart(n) => "#<RESTART "@ + n@ + seq!['>'],
        Value::Unbound => "#<UNBOUND>"@,
    }
}

/// The printed elements of a sequence, separated by single spaces.
pub open spec fn printed_items(items: Seq<Value>) -> Seq<char>
    decreases items,
{
    if items.len() == 0 {
        Seq::empty()
    } else if items.len() == 1 {
        printed(items[0])
    } else {
        printed_items(items.drop_last()) + seq![' '] + printed(items.last())
    }
}

fn digit(d: u128) -> (r: char)
    requires
        d < 10,
    ensures
        r == digit_char(d as nat),
{
    let b: u8 = (d as u8) + 48;
    b as char
}

fn digits_text(n: u128) -> (r: Vec<char>)
    ensures
        r@ == digits_of(n as nat),
    decreases n,
{
    if n < 10 {
        let mut v: Vec<char> = Vec::new();
        v.push(digit(n));
        proof {
            assert(v@ =~= seq![digit_char(n as nat)]);
        }
        v
    } else {
        let mut v = digits_text(n / 10);
        v.push(digit(n % 10));
        v
    }
}

/// The decimal text of an integer.
pub fn decimal_text(i: i128) -> (r: Vec<char>)
    ensures
        r@ == decimal(i as int),
{
    if i < 0 {
        let m: u128 = if i == i128::MIN {
            0x8000_0000_0000_0000_0000_0000_0000_0000
        } else {
            (-i) as u128
        };
        let mut sign: Vec<char> = Vec::new();
        sign.push('-');
        let d = digits_text(m);
        proof {
            assert(sign@ =~= seq!['-']);
        }
        join_text(&sign, &d)
    } else {
        digits_text(i as u128)
    }
}

fn literal_text(s: &String) -> (r: Vec<char>)
    ensures
        r@ == string_literal(s@),
{
    let v = chars_of(s.as_str());
    let mut out: Vec<char> = Vec::new();
    out.push('"');
    let mut i: usize = 0;
    while i < v.len()
        invariant
            i <= v.len(),
            out@.push('"') == string_literal(v@.take(i as int)),
        decreases v.len() - i,
    {
        let c = v[i];
        let ghost before = out@;
        if c == '"' || c == '\\' {
            out.push('\\');
        }
        out.push(c);
        proof {
            let t = v@.take(i + 1);
            assert(t.drop_last() =~= v@.take(i as int));
            assert(string_literal(v@.take(i as int)).drop_last() =~= before);
            assert(out@.push('"') =~= string_literal(t));
        }
        i = i + 1;
    }
    out.push('"');
    proof {
        assert(v@.take(v.len() as int) =~= v@);
    }
    out
}

fn lit(s: &str) -> (r: Vec<char>)
    ensures
        r@ == s@,
{
    chars_of(s)
}

fn items_text(items: &Vec<Value>) -> (r: Vec<char>)
    ensures
        r@ == printed_items(items@),
    decreases items, 0nat,
{
    let mut out: Vec<char> = Vec::new();
    let mut i: usize = 0;
    while i < items.len()
        invariant
            i <= items.len(),
            out@ == printed_items(items@.take(i as int)),
        decreases items.len() - i,
    {
        let p = value_text(&items[i]);
        proof {
            assert(items@.take(i + 1).drop_last() =~= items@.take(i as int));
        }
        if i == 0 {
            out = p;
        } else {
            out.push(' ');
            out = join_text(&out, &p);
        }
        i = i + 1;
    }
    proof {
        assert(items@.take(items.len() as int) =~= items@);
    }
    out
}

/// The printed representation of a value (see `printed`).
pub fn value_text(v: &Value) -> (r: Vec<char>)
    ensures
        r@ == printed(*v),
    decreases v, 1nat,
{
    match v {
        Value::Nil => lit("NIL"),
        Value::Boolean(b) => if *b {
            lit("T")
        } else {
            lit("NIL")
        },
        Value::Integer(i) => decimal_text(*i as i128),
        Value::Rational { numerator, denominator } => {
            let mut a = decimal_text(*numerator);
            a.push('/');
            let b = decimal_text(*denominator);
            join_text(&a, &b)
        },
        Value::Float(t) => chars_of(t.as_str()),
        Value::Character(c) => {
            let mut r: Vec<char> = Vec::new();
            r.push('#');
            r.push('\\');
            r.push(*c);
            proof {
                assert(r@ =~= seq!['#', '\\', *c]);
            }
            r
        },
        Value::String(s) => literal_text(s),
        Value::Symbol(n) => chars_of(n.as_str()),
        Value::SymbolExact(n) => {
            let q = escaped_symbol_atom(n.as_str());
            chars_of(q.as_str())
        },
        Value::Keyword(n) => {
            let mut r: Vec<char> = Vec::new();
            r.push(':');
            proof {
                assert(r@ =~= seq![':']);
            }
            join_text(&r, &chars_of(n.as_str()))
        },
        Value::KeywordExact(n) => {
            let mut r: Vec<char> = Vec::new();
            r.push(':');
            proof {
                assert(r@ =~= seq![':']);
            }
            let q = escaped_symbol_atom(n.as_str());
            join_text(&r, &chars_of(q.as_str()))
        },
        Value::UninternedSymbol(n) => {
            let mut r: Vec<char> = Vec::new();
            r.push('#');
            r.push(':');
            proof {
                assert(r@ =~= seq!['#', ':']);
            }
            join_text(&r, &chars_of(n.as_str()))
        },
        Value::Package(n) => {
            let mut r = join_text(&lit("#<PACKAGE "), &chars_of(n.as_str()));
            r.push('>');
            r
        },
        Value::List(items) => {
            let mut r: Vec<char> = Vec::new();
            r.push('(');
            proof {
                assert(r@ =~= seq!['(']);
            }
            let mut r = join_text(&r, &items_text(items));
            r.push(')');
            r
        },
        Value::DottedList { items, tail } => {
            let mut r: Vec<char> = Vec::new();
            r.push('(');
            proof {
                assert(r@ =~= seq!['(']);
            }
            let r = join_text(&r, &items_text(items));
            let r = join_text(&r, &lit(" . "));
            let mut r = join_text(&r, &value_text(tail));
            r.push(')');
            r
        },
        Value::Vector(items) => {
            let mut r: Vec<char> = Vec::new();
            r.push('#');
            r.push('(');
            proof {
                assert(r@ =~= seq!['#', '(']);
            }
            let mut r = join_text(&r, &items_text(items));
            r.push(')');
            r
        },
        Value::Values(items) => items_text(items),
        Value::Restart(n) => {
            let mut r = join_text(&lit("#<RESTART "), &chars_of(n.as_str()));
            r.push('>');
            r
        },
        Value::Unbound => lit("#<UNBOUND>"),
    }
}

impl Value {
    /// The printed representation of the value (see `printed`).
    pub fn to_text(&self) -> (r: String)
        ensures
            r@ == printed(*self),
    {
        string_from(&value_text(self))
    }
}

} // verus!
