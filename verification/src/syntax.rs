//! Source forms and the symbol-token grammar: escapes (`\x`, `|...|`),
//! case folding and package markers.
use vstd::prelude::*;
use crate::text::{chars_of, contains_char, has_char, owned, string_from, upcase, upcase_char, upcase_seq, upcase_text};

verus! {

/// A range of positions in source text.
#[derive(Clone, Copy, Debug, PartialEq, Eq)]
pub struct Span {
    pub start: usize,
    pub end: usize,
}

impl Span {
    pub fn new(start: usize, end: usize) -> (r: Span)
        ensures
            r.start == start,
            r.end == end,
    {
        Span { start, end }
    }
}

/// The shape of a read form.
#[derive(Debug)]
pub enum FormKind {
    Atom(String),
    String(String),
    Character(char),
    List(Vec<Form>),
    DottedList { items: Vec<Form>, tail: Box<Form> },
    Vector(Vec<Form>),
}

/// A read form with the source range it came from.
#[derive(Debug)]
pub struct Form {
    pub kind: FormKind,
    pub span: Span,
}

impl Form {
    pub fn new(kind: FormKind, span: Span) -> (r: Form)
        ensures
            r.kind == kind,
            r.span == span,
    {
        Form { kind, span }
    }

    /// An atom form with the given text.
    pub fn atom(text: &str, span: Span) -> (r: Form)
        ensures
            r.kind matches FormKind::Atom(t) && t@ == text@,
            r.span == span,
    {
        Form { kind: FormKind::Atom(owned(text)), span }
    }

    /// A proper list form.
    pub fn list(items: Vec<Form>, span: Span) -> (r: Form)
        ensures
            r.kind matches FormKind::List(v) && v == items,
            r.span == span,
    {
        Form { kind: FormKind::List(items), span }
    }

    /// A dotted list form.
    pub fn dotted_list(items: Vec<Form>, tail: Form, span: Span) -> (r: Form)
        ensures
            r.kind matches FormKind::DottedList { items: v, tail: t } && v == items && *t == tail,
            r.span == span,
    {
        Form { kind: FormKind::DottedList { items, tail: Box::new(tail) }, span }
    }
}

/// The text of an atom form.
pub open spec fn atom_text(form: Form) -> Option<Seq<char>> {
    match form.kind {
        FormKind::Atom(t) => Some(t@),
        _ => None,
    }
}

// ---------------------------------------------------------------------------
// Reading a token: escapes and case folding.

/// A read character, and whether it was escaped.
pub type Unit = (char, bool);

/// Prepends a read prefix to the rest of a reading, when that reading succeeded.
pub open spec fn after_prefix(prefix: Seq<Unit>, rest: Option<Seq<Unit>>) -> Option<Seq<Unit>> {
    match rest {
        Some(u) => Some(prefix + u),
        None => None,
    }
}

/// Reads token text from position `i` on: a backslash escapes the next
/// character, vertical bars escape everything between them. A trailing
/// backslash or an unclosed bar makes the text unreadable.
pub open spec fn units_from(s: Seq<char>, i: int, in_bar: bool) -> Option<Seq<Unit>>
    decreases s.len() - i,
{
    if i < 0 || i >= s.len() {
        if in_bar {
            None
        } else {
            Some(Seq::empty())
        }
    } else if s[i] == '\\' {
        if i + 1 < s.len() {
            after_prefix(seq![(s[i + 1], true)], units_from(s, i + 2, in_bar))
        } else {
            None
        }
    } else if s[i] == '|' {
        units_from(s, i + 1, !in_bar)
    } else {
        after_prefix(seq![(s[i], in_bar)], units_from(s, i + 1, in_bar))
    }
}

/// The name a reading denotes: unescaped characters are upper-cased.
pub open spec fn fold_units(u: Seq<Unit>) -> Seq<char> {
    u.map_values(|p: Unit| if p.1 { p.0 } else { upcase(p.0) })
}

/// The characters of a reading, case unchanged.
pub open spec fn plain_units(u: Seq<Unit>) -> Seq<char> {
    u.map_values(|p: Unit| p.0)
}

/// Whether a reading holds an unescaped colon (a package marker).
pub open spec fn has_marker(u: Seq<Unit>) -> bool {
    exists|k: int| 0 <= k < u.len() && u[k] == (':', false)
}

/// The position of the first package marker of a reading.
pub open spec fn first_marker(u: Seq<Unit>) -> Option<int> {
    if has_marker(u) {
        Some(choose|k: int| 0 <= k < u.len() && u[k] == (':', false) && forall|j: int| 0 <= j < k ==> u[j] != (':', false))
    } else {
        None
    }
}

/// The canonical spelling of a name: escapes removed, unescaped characters
/// upper-cased. Unreadable text is upper-cased as a whole.
pub open spec fn normalize(s: Seq<char>) -> Seq<char> {
    match units_from(s, 0, false) {
        Some(u) => fold_units(u),
        None => upcase_seq(s),
    }
}

/// Whether token text uses escape syntax.
pub open spec fn uses_escapes(s: Seq<char>) -> bool {
    has_char(s, '|') || has_char(s, '\\')
}

proof fn lemma_after_prefix_assoc(a: Seq<Unit>, b: Seq<Unit>, rest: Option<Seq<Unit>>)
    ensures
        after_prefix(a, after_prefix(b, rest)) == after_prefix(a + b, rest),
{
    match rest {
        Some(u) => {
            assert(a + (b + u) =~= (a + b) + u);
        },
        None => {},
    }
}

/// Reads token text from a position on (see `units_from`).
pub fn read_units(s: &Vec<char>, from: usize) -> (r: Option<Vec<Unit>>)
    requires
        from <= s.len(),
    ensures
        match r {
            Some(v) => units_from(s@, from as int, false) == Some(v@),
            None => units_from(s@, from as int, false) is None,
        },
{
    let mut out: Vec<Unit> = Vec::new();
    let mut i: usize = from;
    let mut in_bar = false;
    while i < s.len()
        invariant
            from <= i <= s.len(),
            units_from(s@, from as int, false) == after_prefix(out@, units_from(s@, i as int, in_bar)),
        decreases s.len() - i,
    {
        let c = s[i];
        if c == '\\' {
            if i + 1 < s.len() {
                proof {
                    lemma_after_prefix_assoc(out@, seq![(s@[i + 1], true)], units_from(s@, i + 2, in_bar));
                }
                out.push((s[i + 1], true));
                i = i + 2;
            } else {
                return None;
            }
        } else if c == '|' {
            in_bar = !in_bar;
            i = i + 1;
        } else {
            proof {
                lemma_after_prefix_assoc(out@, seq![(c, in_bar)], units_from(s@, i + 1, in_bar));
            }
            out.push((c, in_bar));
            i = i + 1;
        }
    }
    if in_bar {
        None
    } else {
        proof {
            assert(out@ + Seq::<Unit>::empty() =~= out@);
        }
        Some(out)
    }
}


/// The position of the first package marker at or after `from`.
pub fn find_marker(u: &Vec<Unit>, from: usize) -> (r: Option<usize>)
    requires
        from <= u.len(),
    ensures
        match r {
            Some(k) => from <= k < u.len() && u@[k as int] == (':', false) && forall|j: int|
                from <= j < k ==> u@[j] != (':', false),
            None => forall|j: int| from <= j < u.len() ==> u@[j] != (':', false),
        },
{
    let mut i = from;
    while i < u.len()
        invariant
            from <= i <= u.len(),
            forall|j: int| from <= j < i ==> u@[j] != (':', false),
        decreases u.len() - i,
    {
        let (c, escaped) = u[i];
        if c == ':' && !escaped {
            return Some(i);
        }
        i = i + 1;
    }
    None
}

proof fn lemma_marker_skip(u: Seq<Unit>, from: int)
    requires
        0 <= from <= u.len(),
    ensures
        has_marker(u.skip(from)) <==> exists|j: int| from <= j < u.len() && u[j] == (':', false),
{
    if has_marker(u.skip(from)) {
        let k = choose|k: int| 0 <= k < u.skip(from).len() && u.skip(from)[k] == (':', false);
        assert(u[from + k] == (':', false));
    }
    if exists|j: int| from <= j < u.len() && u[j] == (':', false) {
        let j = choose|j: int| from <= j < u.len() && u[j] == (':', false);
        assert(u.skip(from)[j - from] == (':', false));
    }
}

proof fn lemma_first_marker(u: Seq<Unit>, k: int)
    requires
        0 <= k < u.len(),
        u[k] == (':', false),
        forall|j: int| 0 <= j < k ==> u[j] != (':', false),
    ensures
        first_marker(u) == Some(k),
{
    assert(has_marker(u));
    let c = choose|c: int| 0 <= c < u.len() && u[c] == (':', false) && forall|j: int| 0 <= j < c ==> u[j] != (':', false);
    assert(0 <= c < u.len() && u[c] == (':', false) && forall|j: int| 0 <= j < c ==> u[j] != (':', false));
    if c < k {
        assert(u[c] != (':', false));
    }
    if k < c {
        assert(u[k] != (':', false));
    }
}

/// The folded name of a reading from a position on.
pub fn fold_from(u: &Vec<Unit>, from: usize) -> (r: Vec<char>)
    requires
        from <= u.len(),
    ensures
        r@ == fold_units(u@.skip(from as int)),
{
    let mut out: Vec<char> = Vec::new();
    let mut i = from;
    while i < u.len()
        invariant
            from <= i <= u.len(),
            out@ == fold_units(u@.subrange(from as int, i as int)),
        decreases u.len() - i,
    {
        let (c, escaped) = u[i];
        let d = if escaped { c } else { upcase_char(c) };
        out.push(d);
        proof {
            assert(fold_units(u@.subrange(from as int, i as int)).push(d) =~= fold_units(
                u@.subrange(from as int, i + 1),
            ));
        }
        i = i + 1;
    }
    proof {
        assert(u@.subrange(from as int, u.len() as int) =~= u@.skip(from as int));
    }
    out
}

/// The characters of a reading before a position, case unchanged.
pub fn plain_to(u: &Vec<Unit>, to: usize) -> (r: Vec<char>)
    requires
        to <= u.len(),
    ensures
        r@ == plain_units(u@.take(to as int)),
{
    let mut out: Vec<char> = Vec::new();
    let mut i: usize = 0;
    while i < to
        invariant
            i <= to <= u.len(),
            out@ == plain_units(u@.take(i as int)),
        decreases to - i,
    {
        let (c, _) = u[i];
        out.push(c);
        proof {
            assert(plain_units(u@.take(i as int)).push(c) =~= plain_units(u@.take(i + 1)));
        }
        i = i + 1;
    }
    out
}

/// The canonical spelling of a name (see `normalize`).
pub fn normalize_text(s: &Vec<char>) -> (r: Vec<char>)
    ensures
        r@ == normalize(s@),
{
    match read_units(s, 0) {
        Some(u) => {
            let r = fold_from(&u, 0);
            proof {
                assert(u@.skip(0) =~= u@);
            }
            r
        },
        None => upcase_text(s),
    }
}

/// The canonical spelling of a name: `foo` is `FOO`, `|Foo|` is `Foo`,
/// `a\ b` is `A b`.
pub fn normalize_name(name: &str) -> (r: String)
    ensures
        r@ == normalize(name@),
{
    let v = chars_of(name);
    let n = normalize_text(&v);
    string_from(&n)
}

/// Whether token text uses escape syntax.
pub fn text_uses_escapes(s: &Vec<char>) -> (r: bool)
    ensures
        r == uses_escapes(s@),
{
    contains_char(s, '|') || contains_char(s, '\\')
}

// ---------------------------------------------------------------------------
// Symbol tokens.

/// What a symbol token denotes.
#[derive(Clone, Copy, Debug, PartialEq, Eq)]
pub enum SymbolTokenKind {
    Symbol,
    Keyword,
    Uninterned,
}

/// A symbol token: its kind, its name (folded), the text of its package
/// prefix when it has one, and whether escape syntax was used.
#[derive(Debug)]
pub struct SymbolToken {
    pub kind: SymbolTokenKind,
    pub name: String,
    pub package: Option<String>,
    pub escaped: bool,
}

/// The model of a symbol token.
pub struct TokenView {
    pub kind: SymbolTokenKind,
    pub name: Seq<char>,
    pub package: Option<Seq<char>>,
    pub escaped: bool,
}

/// The token that a text reads as, if any. `#:` introduces an uninterned
/// symbol, a leading colon a keyword, and one or two inner colons separate
/// a package prefix from the name. A second marker in the name is an error.
pub open spec fn token_of(s: Seq<char>) -> Option<TokenView> {
    if s.len() >= 2 && s[0] == '#' && s[1] == ':' {
        match units_from(s, 2, false) {
            None => None,
            Some(u) => if has_marker(u) {
                None
            } else {
                Some(
                    TokenView {
                        kind: SymbolTokenKind::Uninterned,
                        name: fold_units(u),
                        package: None,
                        escaped: uses_escapes(s),
                    },
                )
            },
        }
    } else {
        match units_from(s, 0, false) {
            None => None,
            Some(u) => if u.len() > 0 && u[0] == (':', false) {
                if has_marker(u.skip(1)) {
                    None
                } else {
                    Some(
                        TokenView {
                            kind: SymbolTokenKind::Keyword,
                            name: fold_units(u.skip(1)),
                            package: None,
                            escaped: uses_escapes(s),
                        },
                    )
                }
            } else {
                match first_marker(u) {
                    None => Some(
                        TokenView {
                            kind: SymbolTokenKind::Symbol,
                            name: fold_units(u),
                            package: None,
                            escaped: uses_escapes(s),
                        },
                    ),
                    Some(k) => {
                        let start = if k + 1 < u.len() && u[k + 1] == (':', false) {
                            k + 2
                        } else {
                            k + 1
                        };
                        if has_marker(u.skip(start)) {
                            None
                        } else {
                            Some(
                                TokenView {
                                    kind: SymbolTokenKind::Symbol,
                                    name: fold_units(u.skip(start)),
                                    package: Some(plain_units(u.take(k))),
                                    escaped: uses_escapes(s),
                                },
                            )
                        }
                    },
                }
            },
        }
    }
}

impl SymbolToken {
    pub open spec fn view(&self) -> TokenView {
        TokenView {
            kind: self.kind,
            name: self.name@,
            package: match self.package {
                Some(p) => Some(p@),
                None => None,
            },
            escaped: self.escaped,
        }
    }
}

/// Reads a symbol token from atom text.
pub fn parse_symbol_token(atom: &str) -> (r: Option<SymbolToken>)
    ensures
        match r {
            Some(t) => token_of(atom@) == Some(t.view()),
            None => token_of(atom@) is None,
        },
{
    let s = chars_of(atom);
    let escaped = text_uses_escapes(&s);
    if s.len() >= 2 && s[0] == '#' && s[1] == ':' {
        let u = match read_units(&s, 2) {
            Some(u) => u,
            None => return None,
        };
        proof {
            lemma_marker_skip(u@, 0);
            assert(u@.skip(0) =~= u@);
        }
        if find_marker(&u, 0).is_some() {
            return None;
        }
        let name = fold_from(&u, 0);
        return Some(
            SymbolToken {
                kind: SymbolTokenKind::Uninterned,
                name: string_from(&name),
                package: None,
                escaped,
            },
        );
    }
    let u = match read_units(&s, 0) {
        Some(u) => u,
        None => return None,
    };
    if u.len() > 0 && u[0].0 == ':' && !u[0].1 {
        proof {
            lemma_marker_skip(u@, 1);
        }
        if find_marker(&u, 1).is_some() {
            return None;
        }
        let name = fold_from(&u, 1);
        return Some(
            SymbolToken { kind: SymbolTokenKind::Keyword, name: string_from(&name), package: None, escaped },
        );
    }
    proof {
        lemma_marker_skip(u@, 0);
        assert(u@.skip(0) =~= u@);
    }
    match find_marker(&u, 0) {
        None => {
            let name = fold_from(&u, 0);
            Some(
                SymbolToken {
                    kind: SymbolTokenKind::Symbol,
                    name: string_from(&name),
                    package: None,
                    escaped,
                },
            )
        },
        Some(k) => {
            proof {
                lemma_first_marker(u@, k as int);
            }
            let start = if k + 1 < u.len() && u[k + 1].0 == ':' && !u[k + 1].1 {
                k + 2
            } else {
                k + 1
            };
            proof {
                lemma_marker_skip(u@, start as int);
            }
            if find_marker(&u, start).is_some() {
                return None;
            }
            let name = fold_from(&u, start);
            let package = plain_to(&u, k);
            Some(
                SymbolToken {
                    kind: SymbolTokenKind::Symbol,
                    name: string_from(&name),
                    package: Some(string_from(&package)),
                    escaped,
                },
            )
        },
    }
}

} // verus!
