//! The variable list of `PROG` and `PROG*`: each binding is a symbol, or
//! a list of a symbol and an optional initial value form, and no variable
//! is bound twice.
use vstd::prelude::*;
use crate::error::{arity, invalid, is_arity_error, operands, reports, Failure, RuntimeError};
use crate::runtime::Runtime;
use crate::syntax::{Form, FormKind};
use crate::text::{chars_of, same_text};
use crate::validation::variable_outcome;

verus! {

broadcast use vstd::std_specs::vec::group_vec_axioms;

/// One `PROG` binding: the variable's name, whether it was written with
/// escapes, and whether an initial value form follows it.
#[derive(Debug, PartialEq, Eq)]
pub struct ProgBinding {
    pub name: String,
    pub escaped: bool,
    pub has_init: bool,
}

/// What a binding form reads as: its name, escapes and whether it has an
/// initial value form.
#[verifier::opaque]
pub open spec fn binding_outcome(f: Form) -> Result<(Seq<char>, bool, bool), Failure> {
    match f.kind {
        FormKind::Atom(_) => match variable_outcome(f) {
            Some(p) => Ok((p.0, p.1, false)),
            None => Err(Failure::Invalid("prog binding name must be a symbol"@, f.span)),
        },
        FormKind::List(parts) => if parts.len() < 1 || parts.len() > 2 {
            Err(Failure::Invalid("prog binding needs a name and optional value"@, f.span))
        } else {
            match variable_outcome(parts@[0]) {
                Some(p) => Ok((p.0, p.1, parts.len() == 2)),
                None => Err(Failure::Invalid("prog binding name must be a symbol"@, parts@[0].span)),
            }
        },
        _ => Err(Failure::Invalid("prog binding must be a symbol or list"@, f.span)),
    }
}

/// The form that names a binding's variable.
pub open spec fn name_form_of(f: Form) -> Form {
    match f.kind {
        FormKind::List(parts) => if parts.len() > 0 {
            parts@[0]
        } else {
            f
        },
        _ => f,
    }
}

/// The key two bindings of one variable share: an escaped name is kept
/// apart from plain ones by a leading NUL character.
pub open spec fn binding_key(name: Seq<char>, escaped: bool) -> Seq<char> {
    if escaped {
        seq!['\0'] + name
    } else {
        name
    }
}

/// Whether one of the bindings read so far has the key of `b`.
pub open spec fn key_taken(bs: Seq<(Seq<char>, bool, bool)>, b: (Seq<char>, bool, bool)) -> bool {
    exists|i: int| 0 <= i < bs.len() && #[trigger] binding_key(bs[i].0, bs[i].1) == binding_key(b.0, b.1)
}

/// The bindings read so far, with one more binding form read.
#[verifier::opaque]
pub open spec fn binding_step(bs: Seq<(Seq<char>, bool, bool)>, f: Form) -> Result<Seq<(Seq<char>, bool, bool)>, Failure> {
    match binding_outcome(f) {
        Err(e) => Err(e),
        Ok(b) => if key_taken(bs, b) {
            Err(Failure::Invalid("prog binding names must be unique"@, name_form_of(f).span))
        } else {
            Ok(bs.push(b))
        },
    }
}

/// The bindings a list of binding forms reads as; the first bad form, or
/// the first variable bound a second time, is an error.
pub open spec fn prog_bindings_outcome(forms: Seq<Form>) -> Result<Seq<(Seq<char>, bool, bool)>, Failure>
    decreases forms.len(),
{
    if forms.len() == 0 {
        Ok(Seq::empty())
    } else {
        match prog_bindings_outcome(forms.drop_last()) {
            Err(f) => Err(f),
            Ok(bs) => binding_step(bs, forms.last()),
        }
    }
}

/// Whether exec bindings are the ones a model describes.
pub open spec fn bindings_are(v: Seq<ProgBinding>, bs: Seq<(Seq<char>, bool, bool)>) -> bool {
    v.len() == bs.len() && forall|i: int|
        0 <= i < bs.len() ==> (#[trigger] v[i]).name@ == bs[i].0 && v[i].escaped == bs[i].1 && v[i].has_init == bs[i].2
}

/// The bindings a read yields have distinct keys.
pub proof fn lemma_bindings_distinct(forms: Seq<Form>)
    ensures
        prog_bindings_outcome(forms) matches Ok(bs) ==> forall|i: int, j: int|
            0 <= i < j < bs.len() ==> binding_key(bs[i].0, bs[i].1) != binding_key(bs[j].0, bs[j].1),
    decreases forms.len(),
{
    reveal(binding_step);
    if forms.len() > 0 {
        lemma_bindings_distinct(forms.drop_last());
        if prog_bindings_outcome(forms) is Ok {
            let bs = prog_bindings_outcome(forms.drop_last())->Ok_0;
            let b = binding_outcome(forms.last())->Ok_0;
            assert forall|i: int, j: int| 0 <= i < j < bs.len() + 1 implies binding_key(
                bs.push(b)[i].0,
                bs.push(b)[i].1,
            ) != binding_key(bs.push(b)[j].0, bs.push(b)[j].1) by {
                if j == bs.len() {
                    if binding_key(bs[i].0, bs[i].1) == binding_key(b.0, b.1) {
                        assert(key_taken(bs, b));
                    }
                }
            }
        }
    }
}

/// The key of a binding, as text.
fn key_text(name: &String, escaped: bool) -> (r: Vec<char>)
    ensures
        r@ == binding_key(name@, escaped),
{
    let text = chars_of(name.as_str());
    if escaped {
        let mut key: Vec<char> = Vec::new();
        key.push('\0');
        let mut i: usize = 0;
        while i < text.len()
            invariant
                i <= text.len(),
                key@ == seq!['\0'] + text@.take(i as int),
            decreases text.len() - i,
        {
            key.push(text[i]);
            proof {
                assert(text@.take(i + 1) =~= text@.take(i as int).push(text@[i as int]));
            }
            i = i + 1;
        }
        proof {
            assert(text@.take(text.len() as int) =~= text@);
        }
        key
    } else {
        text
    }
}

/// Whether a key is among those read so far.
fn holds_key(keys: &Vec<Vec<char>>, key: &Vec<char>) -> (r: bool)
    ensures
        r == exists|i: int| 0 <= i < keys@.len() && keys@[i]@ == key@,
{
    let mut j: usize = 0;
    while j < keys.len()
        invariant
            j <= keys.len(),
            forall|i: int| 0 <= i < j ==> keys@[i]@ != key@,
        decreases keys.len() - j,
    {
        if same_text(&keys[j], key) {
            return true;
        }
        j = j + 1;
    }
    false
}

/// Reads one binding form (see `binding_outcome`).
fn read_binding(form: &Form) -> (r: Result<ProgBinding, RuntimeError>)
    ensures
        match binding_outcome(*form) {
            Ok(b) => r matches Ok(x) && x.name@ == b.0 && x.escaped == b.1 && x.has_init == b.2,
            Err(f) => r matches Err(e) && reports(e, f),
        },
{
    reveal(binding_outcome);
    match &form.kind {
        FormKind::Atom(_) => {
            let (name, escaped) = Runtime::variable_name_info(form, "prog binding name must be a symbol")?;
            Ok(ProgBinding { name, escaped, has_init: false })
        },
        FormKind::List(parts) => {
            if parts.len() < 1 || parts.len() > 2 {
                return Err(invalid("prog binding needs a name and optional value", form.span));
            }
            let (name, escaped) = Runtime::variable_name_info(&parts[0], "prog binding name must be a symbol")?;
            Ok(ProgBinding { name, escaped, has_init: parts.len() == 2 })
        },
        _ => Err(invalid("prog binding must be a symbol or list", form.span)),
    }
}

/// A binding form that reads has its name first when it is a list.
proof fn lemma_binding_shape(f: Form)
    requires
        binding_outcome(f) is Ok,
    ensures
        f.kind matches FormKind::List(parts) ==> parts.len() >= 1 && name_form_of(f) == parts@[0],
{
    reveal(binding_outcome);
}

/// Reads the next binding form against the keys read so far.
fn read_next(form: &Form, keys: &Vec<Vec<char>>, Ghost(bs): Ghost<Seq<(Seq<char>, bool, bool)>>) -> (r: Result<
    (ProgBinding, Vec<char>),
    RuntimeError,
>)
    requires
        keys.len() == bs.len(),
        forall|i: int| 0 <= i < bs.len() ==> (#[trigger] keys@[i])@ == binding_key(bs[i].0, bs[i].1),
    ensures
        match binding_step(bs, *form) {
            Ok(next) => r matches Ok((b, key)) && next == bs.push((b.name@, b.escaped, b.has_init)) && key@
                == binding_key(b.name@, b.escaped),
            Err(f) => r matches Err(e) && reports(e, f),
        },
{
    reveal(binding_step);
    let b = read_binding(form)?;
    let key = key_text(&b.name, b.escaped);
    proof {
        lemma_binding_shape(*form);
    }
    if holds_key(keys, &key) {
        let name_span = match &form.kind {
            FormKind::List(parts) => parts[0].span,
            _ => form.span,
        };
        proof {
            let i = choose|i: int| 0 <= i < keys@.len() && keys@[i]@ == key@;
            assert(binding_key(bs[i].0, bs[i].1) == binding_key(b.name@, b.escaped));
            assert(key_taken(bs, (b.name@, b.escaped, b.has_init)));
        }
        return Err(invalid("prog binding names must be unique", name_span));
    }
    proof {
        if key_taken(bs, (b.name@, b.escaped, b.has_init)) {
            let i = choose|i: int|
                0 <= i < bs.len() && #[trigger] binding_key(bs[i].0, bs[i].1) == binding_key(b.name@, b.escaped);
            assert(keys@[i]@ == key@);
        }
    }
    Ok((b, key))
}

impl Runtime {
    /// The binding forms of `(PROG bindings form...)` (`PROG*` when
    /// `sequential`): the form needs its binding list, which must be a list.
    pub fn prog_binding_forms(items: &[Form], sequential: bool) -> (r: Result<&Vec<Form>, RuntimeError>)
        ensures
            items@.len() < 2 ==> (r matches Err(e) && is_arity_error(
                e,
                if sequential {
                    "prog*"@
                } else {
                    "prog"@
                },
                "at least one"@,
                operands(items@.len()),
            )),
            items@.len() >= 2 ==> match items@[1].kind {
                FormKind::List(forms) => r matches Ok(v) && *v == forms,
                _ => r matches Err(e) && reports(e, Failure::Invalid("prog bindings must be a list"@, items@[1].span)),
            },
    {
        if items.len() < 2 {
            let count: usize = if items.len() == 0 {
                0
            } else {
                items.len() - 1
            };
            return Err(arity(
                if sequential {
                    "prog*"
                } else {
                    "prog"
                },
                "at least one",
                count,
            ));
        }
        match &items[1].kind {
            FormKind::List(forms) => Ok(forms),
            _ => Err(invalid("prog bindings must be a list", items[1].span)),
        }
    }

    /// Reads the bindings of `PROG` (see `prog_bindings_outcome`).
    pub fn prog_bindings(forms: &Vec<Form>) -> (r: Result<Vec<ProgBinding>, RuntimeError>)
        ensures
            match prog_bindings_outcome(forms@) {
                Ok(bs) => r matches Ok(v) && bindings_are(v@, bs),
                Err(f) => r matches Err(e) && reports(e, f),
            },
    {
        let mut out: Vec<ProgBinding> = Vec::new();
        let mut keys: Vec<Vec<char>> = Vec::new();
        let mut k: usize = 0;
        proof {
            assert(forms@.take(0) =~= Seq::<Form>::empty());
            assert(prog_bindings_outcome(forms@.take(0)) == Ok::<Seq<(Seq<char>, bool, bool)>, Failure>(Seq::empty()));
        }
        while k < forms.len()
            invariant
                k <= forms.len(),
                prog_bindings_outcome(forms@.take(k as int)) matches Ok(bs) && bindings_are(out@, bs) && keys.len()
                    == bs.len() && forall|i: int| 0 <= i < bs.len() ==> (#[trigger] keys@[i])@ == binding_key(bs[i].0, bs[i].1),
            decreases forms.len() - k,
        {
            let ghost bs = prog_bindings_outcome(forms@.take(k as int))->Ok_0;
            proof {
                assert(forms@.take(k + 1).drop_last() =~= forms@.take(k as int));
                assert(forms@.take(k + 1).last() == forms@[k as int]);
            }
            let (b, key) = match read_next(&forms[k], &keys, Ghost(bs)) {
                Ok(next) => next,
                Err(e) => {
                    proof {
                        lemma_failure_sticks(forms@, (k + 1) as nat);
                    }
                    return Err(e);
                },
            };
            out.push(b);
            keys.push(key);
            k = k + 1;
        }
        proof {
            assert(forms@.take(forms.len() as int) =~= forms@);
        }
        let ghost bs = prog_bindings_outcome(forms@)->Ok_0;
        assert(bindings_are(out@, bs));
        Ok(out)
    }
}

/// Once a prefix of the binding forms fails to read, the whole fails the
/// same way.
proof fn lemma_failure_sticks(forms: Seq<Form>, n: nat)
    requires
        n <= forms.len(),
        prog_bindings_outcome(forms.take(n as int)) is Err,
    ensures
        prog_bindings_outcome(forms) == prog_bindings_outcome(forms.take(n as int)),
    decreases forms.len() - n,
{
    if n < forms.len() {
        assert(forms.take(n + 1 as int).drop_last() =~= forms.take(n as int));
        lemma_failure_sticks(forms, n + 1);
    } else {
        assert(forms.take(n as int) =~= forms);
    }
}

} // verus!
