use proc_macro2::Span;
use vstd::prelude::*;
use vstd::string::{StrSliceExecFns, StringExecFns};

verus! {

/// `proc_macro2::Span`, a source location: carried through, never looked into.
#[verifier::external_type_specification]
#[verifier::external_body]
pub struct ExSpan(Span);

/// Relies on the derived `Clone` of `proc_macro2::Span`, a `Copy` type.
pub assume_specification[ <Span as Clone>::clone ](s: &Span) -> (r: Span)
    ensures
        r == *s,
;

/// A string together with the source location it was written at.
#[derive(Clone)]
pub struct SpannedString {
    pub string: String,
    pub span: Span,
}

impl SpannedString {
    #[inline]
    pub fn new(string: String, span: Span) -> (r: Self)
        ensures
            r.string@ == string@,
            r.span == span,
    {
        Self { string, span }
    }
}

/// The characters of `s`, in order.
pub(crate) fn chars_of(s: &str) -> (r: Vec<char>)
    ensures
        r@ == s@,
{
    let n = s.unicode_len();
    let mut r: Vec<char> = Vec::new();
    let mut i: usize = 0;
    while i < n
        invariant
            n == s@.len(),
            i <= n,
            r@ == s@.take(i as int),
        decreases n - i,
    {
        r.push(s.get_char(i));
        assert(s@.take(i as int).push(s@[i as int]) =~= s@.take(i + 1));
        i = i + 1;
    }
    assert(s@.take(n as int) =~= s@);
    r
}

/// Relies on `String::push`: appends one character.
#[verifier::external_body]
pub(crate) fn push_char(s: &mut String, c: char)
    ensures
        final(s)@ == old(s)@.push(c),
{
    s.push(c)
}

/// Whether two strings hold the same characters.
pub fn str_eq(a: &str, b: &str) -> (r: bool)
    ensures
        r == (a@ == b@),
{
    let x = chars_of(a);
    let y = chars_of(b);
    if x.len() != y.len() {
        return false;
    }
    let mut i: usize = 0;
    while i < x.len()
        invariant
            x@ == a@,
            y@ == b@,
            x@.len() == y@.len(),
            i <= x@.len(),
            forall|k: int| 0 <= k < i ==> x@[k] == y@[k],
        decreases x@.len() - i,
    {
        if x[i] != y[i] {
            return false;
        }
        i = i + 1;
    }
    assert(x@ =~= y@);
    true
}

/// The string inside `this`, borrowed as a `&str`.
pub fn opt_as_deref(this: &Option<String>) -> (r: Option<&str>)
    ensures
        r is Some == this is Some,
        r is Some ==> r->0@ == this->0@,
{
    match this {
        Some(t) => Some(t.as_str()),
        None => None,
    }
}

/// Whether an enum with `variants` variants has at least `min` of them.
pub fn has_enough_variants(variants: usize, min: usize) -> (r: bool)
    ensures
        r == (variants >= min),
{
    variants >= min
}

/// The documentation texts `docs` written one after the other.
pub open spec fn joined(docs: Seq<String>) -> Seq<char>
    decreases docs.len(),
{
    if docs.len() == 0 {
        seq![]
    } else {
        joined(docs.drop_last()) + docs.last()@
    }
}

/// The documentation given by several attributes, joined in order; none when
/// no attribute gave any.
pub fn join_docs(docs: &Vec<String>) -> (r: Option<String>)
    ensures
        r is None <==> docs@.len() == 0,
        r matches Some(s) ==> s@ == joined(docs@),
{
    if docs.len() == 0 {
        return None;
    }
    let mut s = String::new();
    let mut i: usize = 0;
    while i < docs.len()
        invariant
            i <= docs@.len(),
            s@ == joined(docs@.take(i as int)),
        decreases docs@.len() - i,
    {
        push_string(&mut s, docs[i].as_str());
        assert(docs@.take(i + 1).drop_last() =~= docs@.take(i as int));
        i = i + 1;
    }
    assert(docs@.take(docs@.len() as int) =~= docs@);
    Some(s)
}

/// Appends `t` to `s`.
pub(crate) fn push_string(s: &mut String, t: &str)
    ensures
        final(s)@ == old(s)@ + t@,
{
    s.append(t);
}

} // verus!
