//! Number syntax of atoms: decimal integers (as `i64::from_str` and
//! `i128::from_str` accept them), ratios and decimal floats (as
//! `f64::from_str` accepts them), and the reduction of ratios.
use vstd::prelude::*;
use crate::text::{has_char, text_is, upcase_seq, upcase_text, find_char, head_to, tail_from};

verus! {

/// Whether a character is an ASCII decimal digit.
pub open spec fn is_digit(c: char) -> bool {
    '0' <= c && c <= '9'
}

/// Whether every character of a text is a digit (the empty text included).
pub open spec fn all_digits(s: Seq<char>) -> bool {
    forall|i: int| 0 <= i < s.len() ==> is_digit(#[trigger] s[i])
}

/// The value of a digit.
pub open spec fn digit_value(c: char) -> int {
    (c as int) - ('0' as int)
}

/// The value of a run of digits.
pub open spec fn digits_value(s: Seq<char>) -> int
    decreases s.len(),
{
    if s.len() == 0 {
        0
    } else {
        10 * digits_value(s.drop_last()) + digit_value(s.last())
    }
}

/// The integer a text denotes: an optional sign and one or more digits.
pub open spec fn integer_syntax(s: Seq<char>) -> Option<int> {
    if s.len() > 0 && (s[0] == '+' || s[0] == '-') {
        let d = s.skip(1);
        if d.len() > 0 && all_digits(d) {
            if s[0] == '-' {
                Some(-digits_value(d))
            } else {
                Some(digits_value(d))
            }
        } else {
            None
        }
    } else if s.len() > 0 && all_digits(s) {
        Some(digits_value(s))
    } else {
        None
    }
}

/// The `i64` a text denotes, as `i64::from_str` reads it.
pub open spec fn i64_of(s: Seq<char>) -> Option<i64> {
    match integer_syntax(s) {
        Some(v) => if i64::MIN <= v <= i64::MAX {
            Some(v as i64)
        } else {
            None
        },
        None => None,
    }
}

/// The `i128` a text denotes, as `i128::from_str` reads it.
pub open spec fn i128_of(s: Seq<char>) -> Option<i128> {
    match integer_syntax(s) {
        Some(v) => if i128::MIN <= v <= i128::MAX {
            Some(v as i128)
        } else {
            None
        },
        None => None,
    }
}

proof fn lemma_digits_nonneg(s: Seq<char>)
    requires
        all_digits(s),
    ensures
        digits_value(s) >= 0,
    decreases s.len(),
{
    if s.len() > 0 {
        assert(all_digits(s.drop_last())) by {
            assert forall|i: int| 0 <= i < s.drop_last().len() implies is_digit(#[trigger] s.drop_last()[i]) by {
                assert(is_digit(s[i]));
            }
        }
        lemma_digits_nonneg(s.drop_last());
        assert(is_digit(s[s.len() - 1]));
    }
}

/// The magnitude of a run of digits from `from` on, when it is at most 2^127.
fn magnitude(v: &Vec<char>, from: usize) -> (r: Option<u128>)
    requires
        from <= v.len(),
    ensures
        match r {
            Some(m) => v@.skip(from as int).len() > 0 && all_digits(v@.skip(from as int))
                && m == digits_value(v@.skip(from as int)) && m <= 0x8000_0000_0000_0000_0000_0000_0000_0000,
            None => !(v@.skip(from as int).len() > 0 && all_digits(v@.skip(from as int)))
                || digits_value(v@.skip(from as int)) > 0x8000_0000_0000_0000_0000_0000_0000_0000,
        },
{
    let ghost d = v@.skip(from as int);
    if from >= v.len() {
        return None;
    }
    let mut acc: u128 = 0;
    let mut i = from;
    let mut big = false;
    while i < v.len()
        invariant
            from <= i <= v.len(),
            d == v@.skip(from as int),
            all_digits(d.take(i - from)),
            !big ==> acc == digits_value(d.take(i - from)) && acc <= 0x8000_0000_0000_0000_0000_0000_0000_0000,
            big ==> digits_value(d.take(i - from)) > 0x8000_0000_0000_0000_0000_0000_0000_0000,
        decreases v.len() - i,
    {
        let c = v[i];
        if !('0' <= c && c <= '9') {
            proof {
                assert(d[i - from] == c);
            }
            return None;
        }
        let ghost before = d.take(i - from);
        proof {
            assert(d.take(i - from + 1).drop_last() =~= before);
            assert(d.take(i - from + 1).last() == c);
            assert(all_digits(d.take(i - from + 1))) by {
                assert forall|j: int| 0 <= j < d.take(i - from + 1).len() implies is_digit(#[trigger] d.take(i - from + 1)[j]) by {
                    if j < i - from {
                        assert(d.take(i - from + 1)[j] == before[j]);
                    }
                }
            }
            lemma_digits_nonneg(before);
        }
        let dv: u128 = ((c as u32) - ('0' as u32)) as u128;
        if !big {
            if acc > 0x0CCC_CCCC_CCCC_CCCC_CCCC_CCCC_CCCC_CCCC {
                big = true;
            } else {
                let next = acc * 10 + dv;
                if next > 0x8000_0000_0000_0000_0000_0000_0000_0000 {
                    big = true;
                } else {
                    acc = next;
                }
            }
        }
        i = i + 1;
    }
    proof {
        assert(d.take(i - from) =~= d);
    }
    if big {
        None
    } else {
        Some(acc)
    }
}

/// Reads a decimal integer that fits in `i128` (see `i128_of`).
pub fn parse_i128(v: &Vec<char>) -> (r: Option<i128>)
    ensures
        r == i128_of(v@),
{
    if v.len() > 0 && (v[0] == '+' || v[0] == '-') {
        let m = magnitude(v, 1);
        match m {
            None => None,
            Some(m) => {
                if v[0] == '-' {
                    if m == 0x8000_0000_0000_0000_0000_0000_0000_0000 {
                        Some(i128::MIN)
                    } else {
                        Some(-(m as i128))
                    }
                } else {
                    if m == 0x8000_0000_0000_0000_0000_0000_0000_0000 {
                        None
                    } else {
                        Some(m as i128)
                    }
                }
            },
        }
    } else {
        let m = magnitude(v, 0);
        proof {
            assert(v@.skip(0) =~= v@);
        }
        match m {
            None => None,
            Some(m) => {
                if m == 0x8000_0000_0000_0000_0000_0000_0000_0000 {
                    None
                } else {
                    Some(m as i128)
                }
            },
        }
    }
}

/// Reads a decimal integer that fits in `i64` (see `i64_of`).
pub fn parse_i64(v: &Vec<char>) -> (r: Option<i64>)
    ensures
        r == i64_of(v@),
{
    match parse_i128(v) {
        Some(x) => {
            if i64::MIN as i128 <= x && x <= i64::MAX as i128 {
                Some(x as i64)
            } else {
                None
            }
        },
        None => {
            proof {
                if let Some(w) = integer_syntax(v@) {
                    assert(!(i128::MIN <= w <= i128::MAX));
                }
            }
            None
        },
    }
}

// ---------------------------------------------------------------------------
// Floats.

/// `Digit+ | Digit+ '.' Digit* | Digit* '.' Digit+`.
pub open spec fn mantissa_syntax(m: Seq<char>) -> bool {
    match crate::text::first_index(m, '.') {
        None => m.len() > 0 && all_digits(m),
        Some(d) => all_digits(m.take(d)) && all_digits(m.skip(d + 1)) && m.len() > 1,
    }
}

/// `('e' | 'E') Sign? Digit+`.
pub open spec fn exponent_syntax(x: Seq<char>) -> bool {
    x.len() >= 2 && (x[0] == 'e' || x[0] == 'E') && {
        let r = x.skip(1);
        let r2 = if r[0] == '+' || r[0] == '-' {
            r.skip(1)
        } else {
            r
        };
        r2.len() > 0 && all_digits(r2)
    }
}

/// The text of a number without sign: a mantissa and an optional exponent.
pub open spec fn number_syntax(b: Seq<char>) -> bool {
    let up = upcase_seq(b);
    match crate::text::first_index(up, 'E') {
        None => mantissa_syntax(b),
        Some(k) => mantissa_syntax(b.take(k)) && exponent_syntax(b.skip(k)),
    }
}

/// Whether a text reads as a float under `f64::from_str`: an optional sign,
/// then `inf`, `infinity`, `nan` (in any case) or a decimal number.
pub open spec fn float_syntax(s: Seq<char>) -> bool {
    let b = if s.len() > 0 && (s[0] == '+' || s[0] == '-') {
        s.skip(1)
    } else {
        s
    };
    let up = upcase_seq(b);
    up == "INF"@ || up == "INFINITY"@ || up == "NAN"@ || number_syntax(b)
}

fn digits_only(v: &Vec<char>) -> (r: bool)
    ensures
        r == all_digits(v@),
{
    let mut i: usize = 0;
    while i < v.len()
        invariant
            i <= v.len(),
            forall|k: int| 0 <= k < i ==> is_digit(#[trigger] v@[k]),
        decreases v.len() - i,
    {
        if !('0' <= v[i] && v[i] <= '9') {
            return false;
        }
        i = i + 1;
    }
    true
}

fn mantissa_ok(m: &Vec<char>) -> (r: bool)
    ensures
        r == mantissa_syntax(m@),
{
    match find_char(m, '.') {
        None => m.len() > 0 && digits_only(m),
        Some(d) => {
            let a = head_to(m, d);
            let b = tail_from(m, d + 1);
            digits_only(&a) && digits_only(&b) && m.len() > 1
        },
    }
}

fn exponent_ok(x: &Vec<char>) -> (r: bool)
    ensures
        r == exponent_syntax(x@),
{
    if x.len() < 2 || !(x[0] == 'e' || x[0] == 'E') {
        return false;
    }
    let r = tail_from(x, 1);
    let r2 = if r[0] == '+' || r[0] == '-' {
        tail_from(&r, 1)
    } else {
        tail_from(&r, 0)
    };
    proof {
        assert(r@.skip(0) =~= r@);
    }
    r2.len() > 0 && digits_only(&r2)
}

/// Whether a text reads as a float (see `float_syntax`).
pub fn is_float_text(s: &Vec<char>) -> (r: bool)
    ensures
        r == float_syntax(s@),
{
    let b = if s.len() > 0 && (s[0] == '+' || s[0] == '-') {
        tail_from(s, 1)
    } else {
        tail_from(s, 0)
    };
    proof {
        assert(s@.skip(0) =~= s@);
    }
    let up = upcase_text(&b);
    if text_is(&up, "INF") || text_is(&up, "INFINITY") || text_is(&up, "NAN") {
        return true;
    }
    match find_char(&up, 'E') {
        None => mantissa_ok(&b),
        Some(k) => {
            let m = head_to(&b, k);
            let x = tail_from(&b, k);
            mantissa_ok(&m) && exponent_ok(&x)
        },
    }
}

// ---------------------------------------------------------------------------
// Ratios.

/// The greatest common divisor (Euclid).
pub open spec fn gcd(a: nat, b: nat) -> nat
    decreases b,
{
    if b == 0 {
        a
    } else {
        gcd(b, a % b)
    }
}

/// The magnitude of an integer.
pub open spec fn magnitude_of(x: int) -> nat {
    if x < 0 {
        (-x) as nat
    } else {
        x as nat
    }
}

/// A ratio in lowest terms with a positive denominator; none for a zero
/// denominator.
pub open spec fn lowest_terms(n: int, d: int) -> Option<(int, int)> {
    if d == 0 {
        None
    } else {
        let g = gcd(magnitude_of(n), magnitude_of(d));
        let p = magnitude_of(n) / g;
        let q = magnitude_of(d) / g;
        if (n < 0) != (d < 0) {
            Some((-p, q as int))
        } else {
            Some((p as int, q as int))
        }
    }
}

proof fn lemma_gcd_positive(a: nat, b: nat)
    requires
        b > 0,
    ensures
        gcd(a, b) > 0,
    decreases b,
{
    if a % b != 0 {
        lemma_gcd_positive(b, a % b);
    } else {
        assert(gcd(b, 0) == b);
    }
}

/// Euclid's algorithm on magnitudes.
pub fn gcd_u128(a: u128, b: u128) -> (r: u128)
    ensures
        r == gcd(a as nat, b as nat),
{
    let mut x = a;
    let mut y = b;
    while y != 0
        invariant
            gcd(x as nat, y as nat) == gcd(a as nat, b as nat),
        decreases y,
    {
        let t = x % y;
        x = y;
        y = t;
    }
    x
}

fn magnitude_u128(x: i128) -> (r: u128)
    ensures
        r == magnitude_of(x as int),
{
    if x == i128::MIN {
        0x8000_0000_0000_0000_0000_0000_0000_0000
    } else if x < 0 {
        (-x) as u128
    } else {
        x as u128
    }
}

/// Reduces `n/d` to lowest terms (see `lowest_terms`); none for a zero
/// denominator or a result outside `i128`.
pub fn reduce_ratio(n: i128, d: i128) -> (r: Option<(i128, i128)>)
    ensures
        match r {
            Some(p) => lowest_terms(n as int, d as int) == Some((p.0 as int, p.1 as int)),
            None => match lowest_terms(n as int, d as int) {
                None => true,
                Some(t) => !(i128::MIN <= t.0 <= i128::MAX && t.1 <= i128::MAX),
            },
        },
{
    if d == 0 {
        return None;
    }
    let a = magnitude_u128(n);
    let b = magnitude_u128(d);
    let g = gcd_u128(a, b);
    proof {
        lemma_gcd_positive(a as nat, b as nat);
        assert(a / g <= a) by (nonlinear_arith)
            requires g > 0;
        assert(b / g <= b) by (nonlinear_arith)
            requires g > 0;
    }
    let p = a / g;
    let q = b / g;
    if q > i128::MAX as u128 {
        return None;
    }
    if (n < 0) != (d < 0) {
        if p == 0x8000_0000_0000_0000_0000_0000_0000_0000 {
            Some((i128::MIN, q as i128))
        } else {
            Some((-(p as i128), q as i128))
        }
    } else {
        if p > i128::MAX as u128 {
            None
        } else {
            Some((p as i128, q as i128))
        }
    }
}

/// `m` divides `y` when `y` is a multiple of it.
proof fn lemma_multiple_divides(x: int, m: int, y: int)
    requires
        m > 0,
        y == x * m,
    ensures
        y % m == 0,
{
    vstd::arithmetic::div_mod::lemma_mod_multiples_basic(x, m);
}

/// What `m` divides is `m` times its quotient.
proof fn lemma_divides_quotient(y: int, m: int)
    requires
        m > 0,
        y % m == 0,
    ensures
        y == m * (y / m),
{
    vstd::arithmetic::div_mod::lemma_fundamental_div_mod(y, m);
}

/// `gcd(a, b)` is the greatest common divisor of `a` and `b`: it divides
/// both (and is positive unless both are zero), and every common divisor
/// of `a` and `b` divides it.
pub proof fn lemma_gcd_greatest_common_divisor(a: nat, b: nat)
    ensures
        a > 0 || b > 0 ==> gcd(a, b) > 0,
        a % gcd(a, b) == 0 || gcd(a, b) == 0,
        b % gcd(a, b) == 0 || gcd(a, b) == 0,
        forall|c: int| c > 0 && (a as int) % c == 0 && (b as int) % c == 0 ==> #[trigger] ((gcd(a, b) as int) % c) == 0,
    decreases b,
{
    if b == 0 {
        if a > 0 {
            lemma_multiple_divides(1, a as int, a as int);
        }
    } else {
        let r = a % b;
        lemma_gcd_greatest_common_divisor(b, r);
        let g = gcd(b, r);
        assert(g == gcd(a, b));
        assert(g > 0);
        vstd::arithmetic::div_mod::lemma_fundamental_div_mod(a as int, b as int);
        lemma_divides_quotient(b as int, g as int);
        lemma_divides_quotient(r as int, g as int);
        let q = a as int / b as int;
        let bg = b as int / g as int;
        let rg = r as int / g as int;
        assert(a as int == (bg * q + rg) * g) by (nonlinear_arith)
            requires
                a as int == b as int * q + r as int,
                b as int == g * bg,
                r as int == g * rg,
        ;
        lemma_multiple_divides(bg * q + rg, g as int, a as int);
        assert forall|c: int| c > 0 && (a as int) % c == 0 && (b as int) % c == 0 implies #[trigger] ((gcd(a, b) as int) % c) == 0 by {
            lemma_divides_quotient(a as int, c);
            lemma_divides_quotient(b as int, c);
            let ac = a as int / c;
            let bc = b as int / c;
            assert(r as int == (ac - bc * q) * c) by (nonlinear_arith)
                requires
                    a as int == b as int * q + r as int,
                    a as int == c * ac,
                    b as int == c * bc,
            ;
            lemma_multiple_divides(ac - bc * q, c, r as int);
        }
    }
}

/// Reading a ratio in lowest terms: for a nonzero denominator the result
/// `p/q` has a positive denominator, denotes the same number
/// (`p * d == n * q`), and no factor above one divides both `p` and `q`.
pub proof fn lemma_lowest_terms_reduces(n: int, d: int)
    requires
        d != 0,
    ensures
        match lowest_terms(n, d) {
            Some((p, q)) => q > 0 && p * d == n * q && forall|k: int|
                k > 1 ==> !(#[trigger] ((magnitude_of(p) as int) % k) == 0 && q % k == 0),
            None => false,
        },
{
    let a = magnitude_of(n);
    let b = magnitude_of(d);
    lemma_gcd_greatest_common_divisor(a, b);
    let g = gcd(a, b);
    assert(g > 0);
    lemma_divides_quotient(a as int, g as int);
    lemma_divides_quotient(b as int, g as int);
    let pp = a / g;
    let qn = b / g;
    assert(qn > 0) by (nonlinear_arith)
        requires
            b as int == g * qn,
            b > 0,
            g > 0,
    ;
    assert(pp * (b as int) == (a as int) * qn) by (nonlinear_arith)
        requires
            a as int == g * pp,
            b as int == g * qn,
    ;
    let (p, q) = lowest_terms(n, d).unwrap();
    assert(q == qn);
    assert(magnitude_of(p) == pp);
    if n < 0 && d < 0 {
        assert(p * d == n * q) by (nonlinear_arith)
            requires
                p == pp,
                d == -(b as int),
                n == -(a as int),
                pp * (b as int) == (a as int) * q,
        ;
    } else if n < 0 {
        assert(p * d == n * q) by (nonlinear_arith)
            requires
                p == -pp,
                d == b as int,
                n == -(a as int),
                pp * (b as int) == (a as int) * q,
        ;
    } else if d < 0 {
        assert(p * d == n * q) by (nonlinear_arith)
            requires
                p == -pp,
                d == -(b as int),
                n == a as int,
                pp * (b as int) == (a as int) * q,
        ;
    } else {
        assert(p * d == n * q) by (nonlinear_arith)
            requires
                p == pp,
                d == b as int,
                n == a as int,
                pp * (b as int) == (a as int) * q,
        ;
    }
    assert forall|k: int| k > 1 implies !(#[trigger] ((magnitude_of(p) as int) % k) == 0 && q % k == 0) by {
        if (magnitude_of(p) as int) % k == 0 && q % k == 0 {
            lemma_divides_quotient(pp as int, k);
            lemma_divides_quotient(q, k);
            let u = pp as int / k;
            let v = q / k;
            let gk = g * k;
            assert(gk > 0) by (nonlinear_arith)
                requires
                    g > 0,
                    k > 1,
                    gk == g * k,
            ;
            assert(a as int == u * gk && b as int == v * gk) by (nonlinear_arith)
                requires
                    a as int == g * pp,
                    b as int == g * qn,
                    pp as int == k * u,
                    q == k * v,
                    q == qn,
                    gk == g * k,
            ;
            lemma_multiple_divides(u, gk, a as int);
            lemma_multiple_divides(v, gk, b as int);
            assert((g as int) % gk == 0);
            lemma_divides_quotient(g as int, gk);
            let w = g as int / gk;
            assert(false) by (nonlinear_arith)
                requires
                    g as int == gk * w,
                    gk == g * k,
                    g > 0,
                    k > 1,
            ;
        }
    }
}

} // verus!
