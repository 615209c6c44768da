//! Character-level helpers shared by the name and token logic.
use vstd::prelude::*;
use vstd::std_specs::iter::IteratorSpec;

verus! {

/// ASCII upper-casing of one character; every other character is unchanged.
pub open spec fn upcase(c: char) -> char {
    if 'a' <= c && c <= 'z' {
        ((c as u32) - 32) as char
    } else {
        c
    }
}

/// ASCII upper-casing of a whole text.
pub open spec fn upcase_seq(s: Seq<char>) -> Seq<char> {
    s.map_values(|c: char| upcase(c))
}

/// Whether a text holds a given character.
pub open spec fn has_char(s: Seq<char>, c: char) -> bool {
    exists|i: int| 0 <= i < s.len() && s[i] == c
}

/// A text without one leading colon, when it starts with one.
pub open spec fn strip_colon(s: Seq<char>) -> Seq<char> {
    if s.len() > 0 && s[0] == ':' {
        s.skip(1)
    } else {
        s
    }
}

/// Upper-cases one character as `char::to_ascii_uppercase` does.
pub fn upcase_char(c: char) -> (r: char)
    ensures
        r == upcase(c),
{
    if 'a' <= c && c <= 'z' {
        let b: u8 = c as u8;
        (b - 32) as char
    } else {
        c
    }
}

/// The characters of a text, in order.
pub fn chars_of(s: &str) -> (r: Vec<char>)
    ensures
        r@ == s@,
{
    let mut out: Vec<char> = Vec::new();
    for c in iter: s.chars()
        invariant
            out@ == iter.seq().take(iter.index() as int),
    {
        out.push(c);
    }
    out
}

/// Appends one character to a string (`String::push`).
#[verifier::external_body]
fn push_char(s: &mut String, c: char)
    ensures
        final(s)@ == old(s)@.push(c),
{
    s.push(c);
}

/// A string holding the given characters.
pub fn string_from(v: &Vec<char>) -> (r: String)
    ensures
        r@ == v@,
{
    let mut out = String::new();
    let mut i: usize = 0;
    while i < v.len()
        invariant
            i <= v.len(),
            out@ == v@.take(i as int),
        decreases v.len() - i,
    {
        push_char(&mut out, v[i]);
        proof {
            assert(v@.take(i as int).push(v@[i as int]) =~= v@.take(i + 1));
        }
        i = i + 1;
    }
    proof {
        assert(v@.take(v.len() as int) =~= v@);
    }
    out
}

/// A string holding the characters of a string slice.
pub fn owned(s: &str) -> (r: String)
    ensures
        r@ == s@,
{
    s.to_owned()
}

/// Whether two texts are the same.
pub fn same_text(a: &Vec<char>, b: &Vec<char>) -> (r: bool)
    ensures
        r == (a@ == b@),
{
    if a.len() != b.len() {
        return false;
    }
    let mut i: usize = 0;
    while i < a.len()
        invariant
            a.len() == b.len(),
            i <= a.len(),
            forall|k: int| 0 <= k < i ==> a@[k] == b@[k],
        decreases a.len() - i,
    {
        if a[i] != b[i] {
            return false;
        }
        i = i + 1;
    }
    proof {
        assert(a@ =~= b@);
    }
    true
}

/// Whether a text reads exactly as a given string slice.
pub fn text_is(a: &Vec<char>, b: &str) -> (r: bool)
    ensures
        r == (a@ == b@),
{
    let bv = chars_of(b);
    same_text(a, &bv)
}

/// The ASCII upper-cased copy of a text.
pub fn upcase_text(v: &Vec<char>) -> (r: Vec<char>)
    ensures
        r@ == upcase_seq(v@),
{
    let mut out: Vec<char> = Vec::new();
    let mut i: usize = 0;
    while i < v.len()
        invariant
            i <= v.len(),
            out@ == upcase_seq(v@.take(i as int)),
        decreases v.len() - i,
    {
        let c = upcase_char(v[i]);
        out.push(c);
        proof {
            assert(upcase_seq(v@.take(i as int)).push(upcase(v@[i as int])) =~= upcase_seq(
                v@.take(i + 1),
            ));
        }
        i = i + 1;
    }
    proof {
        assert(v@.take(v.len() as int) =~= v@);
    }
    out
}

/// ASCII lower-casing of one character; every other character is unchanged.
pub open spec fn downcase(c: char) -> char {
    if 'A' <= c && c <= 'Z' {
        ((c as u32) + 32) as char
    } else {
        c
    }
}

/// ASCII lower-casing of a whole text.
pub open spec fn downcase_seq(s: Seq<char>) -> Seq<char> {
    s.map_values(|c: char| downcase(c))
}

/// Lower-cases one character as `char::to_ascii_lowercase` does.
pub fn downcase_char(c: char) -> (r: char)
    ensures
        r == downcase(c),
{
    if 'A' <= c && c <= 'Z' {
        let b: u8 = c as u8;
        (b + 32) as char
    } else {
        c
    }
}

/// The text lower-cased (`str::to_ascii_lowercase`).
pub fn downcase_text(v: &Vec<char>) -> (r: Vec<char>)
    ensures
        r@ == downcase_seq(v@),
{
    let mut out: Vec<char> = Vec::new();
    let mut i: usize = 0;
    while i < v.len()
        invariant
            i <= v.len(),
            out@ == downcase_seq(v@.take(i as int)),
        decreases v.len() - i,
    {
        let c = downcase_char(v[i]);
        out.push(c);
        proof {
            assert(downcase_seq(v@.take(i as int)).push(downcase(v@[i as int])) =~= downcase_seq(
                v@.take(i + 1),
            ));
        }
        i = i + 1;
    }
    proof {
        assert(v@.take(v.len() as int) =~= v@);
    }
    out
}

/// Whether two texts are equal up to ASCII case (`str::eq_ignore_ascii_case`).
pub fn same_ignoring_case(a: &Vec<char>, b: &str) -> (r: bool)
    ensures
        r == (upcase_seq(a@) == upcase_seq(b@)),
{
    let bv = chars_of(b);
    let ua = upcase_text(a);
    let ub = upcase_text(&bv);
    same_text(&ua, &ub)
}

/// Whether a text holds a given character.
pub fn contains_char(v: &Vec<char>, c: char) -> (r: bool)
    ensures
        r == has_char(v@, c),
{
    let mut i: usize = 0;
    while i < v.len()
        invariant
            i <= v.len(),
            forall|k: int| 0 <= k < i ==> v@[k] != c,
        decreases v.len() - i,
    {
        if v[i] == c {
            return true;
        }
        i = i + 1;
    }
    false
}

/// The part of a text from a given position on.
pub fn tail_from(v: &Vec<char>, from: usize) -> (r: Vec<char>)
    requires
        from <= v.len(),
    ensures
        r@ == v@.skip(from as int),
{
    let mut out: Vec<char> = Vec::new();
    let mut i: usize = from;
    while i < v.len()
        invariant
            from <= i <= v.len(),
            out@ == v@.subrange(from as int, i as int),
        decreases v.len() - i,
    {
        out.push(v[i]);
        proof {
            assert(v@.subrange(from as int, i as int).push(v@[i as int]) =~= v@.subrange(
                from as int,
                i + 1,
            ));
        }
        i = i + 1;
    }
    proof {
        assert(v@.subrange(from as int, v.len() as int) =~= v@.skip(from as int));
    }
    out
}

/// The first characters of a text, up to a given position.
pub fn head_to(v: &Vec<char>, to: usize) -> (r: Vec<char>)
    requires
        to <= v.len(),
    ensures
        r@ == v@.take(to as int),
{
    let mut out: Vec<char> = Vec::new();
    let mut i: usize = 0;
    while i < to
        invariant
            i <= to <= v.len(),
            out@ == v@.take(i as int),
        decreases to - i,
    {
        out.push(v[i]);
        proof {
            assert(v@.take(i as int).push(v@[i as int]) =~= v@.take(i + 1));
        }
        i = i + 1;
    }
    out
}

/// A text without one leading colon, when it starts with one.
pub fn without_colon(v: &Vec<char>) -> (r: Vec<char>)
    ensures
        r@ == strip_colon(v@),
{
    if v.len() > 0 && v[0] == ':' {
        tail_from(v, 1)
    } else {
        tail_from(v, 0)
    }
}

/// Two texts joined.
pub fn join_text(a: &Vec<char>, b: &Vec<char>) -> (r: Vec<char>)
    ensures
        r@ == a@ + b@,
{
    let mut out = tail_from(a, 0);
    let mut i: usize = 0;
    while i < b.len()
        invariant
            i <= b.len(),
            out@ == a@ + b@.take(i as int),
        decreases b.len() - i,
    {
        out.push(b[i]);
        proof {
            assert(a@ + b@.take(i as int) + seq![b@[i as int]] =~= a@ + b@.take(i + 1));
        }
        i = i + 1;
    }
    proof {
        assert(b@.take(b.len() as int) =~= b@);
    }
    out
}

/// The position of the first occurrence of a character in a text.
pub open spec fn first_index(s: Seq<char>, c: char) -> Option<int> {
    if has_char(s, c) {
        Some(choose|k: int| 0 <= k < s.len() && s[k] == c && forall|j: int| 0 <= j < k ==> s[j] != c)
    } else {
        None
    }
}

proof fn lemma_first_index(s: Seq<char>, c: char, k: int)
    requires
        0 <= k < s.len(),
        s[k] == c,
        forall|j: int| 0 <= j < k ==> s[j] != c,
    ensures
        first_index(s, c) == Some(k),
{
    let w = choose|w: int| 0 <= w < s.len() && s[w] == c && forall|j: int| 0 <= j < w ==> s[j] != c;
    assert(0 <= w < s.len() && s[w] == c && forall|j: int| 0 <= j < w ==> s[j] != c);
    if w < k {
        assert(s[w] != c);
    }
    if k < w {
        assert(s[k] != c);
    }
}

/// The position of the first occurrence of a character in a text.
pub fn find_char(v: &Vec<char>, c: char) -> (r: Option<usize>)
    ensures
        match r {
            Some(k) => first_index(v@, c) == Some(k as int) && k < v.len(),
            None => first_index(v@, c) is None && !has_char(v@, c),
        },
{
    let mut i: usize = 0;
    while i < v.len()
        invariant
            i <= v.len(),
            forall|j: int| 0 <= j < i ==> v@[j] != c,
        decreases v.len() - i,
    {
        if v[i] == c {
            proof {
                lemma_first_index(v@, c, i as int);
            }
            return Some(i);
        }
        i = i + 1;
    }
    None
}

} // verus!
