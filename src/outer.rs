use crate::directive::{has_key, key_seen, lemma_key_seen_step, Error, MetaList, NestedArg, Problem};
use crate::format_case::{style_directive, style_error, FormatCase};
pub use crate::from_to_str::Impl;
use crate::from_to_str::{default_impls, impl_named};
use crate::utils::str_eq;
use vstd::prelude::*;

verus! {

/// The shape a `skip` directive must have.
pub const SKIP_SHAPE: &'static str = "skip(\"...\"*)";

/// The shape a `format` directive must have.
pub const FORMAT_SHAPE: &'static str = "format(style = \"...\")";

/// The capabilities that a type asks not to have generated.
pub struct Skip(pub Vec<Impl>);

/// The style that every variant without a rename of its own is written in.
pub struct Format(pub FormatCase);

/// The capability that one argument of a skip list names, if it names one.
pub open spec fn skip_arg(a: NestedArg) -> Option<Impl> {
    match a {
        NestedArg::Path { ident: Some(id) } => impl_named(id.string@),
        _ => None,
    }
}

/// What a `skip(...)` directive with these arguments stands for: the
/// capabilities named, in order, or the error of the first argument that
/// names none.
pub open spec fn skip_result(attr: MetaList, r: Result<Skip, Error>) -> bool {
    let args = attr.nested@;
    if forall|i: int| 0 <= i < args.len() ==> (#[trigger] skip_arg(args[i])) is Some {
        r matches Ok(s) && s.0@.len() == args.len() && forall|i: int|
            0 <= i < args.len() ==> Some(#[trigger] s.0@[i]) == skip_arg(args[i])
    } else {
        exists|i: int|
            0 <= i < args.len() && (#[trigger] skip_arg(args[i])) is None && (forall|j: int|
                0 <= j < i ==> (#[trigger] skip_arg(args[j])) is Some) && skip_error(attr, i, r)
    }
}

/// The error for argument `i` of a skip list, which names no capability.
pub open spec fn skip_error(attr: MetaList, i: int, r: Result<Skip, Error>) -> bool {
    match r {
        Err(e) => match attr.nested@[i] {
            NestedArg::Path { ident: Some(id) } => e.single(Problem::UnknownSkip, id.span),
            _ => e.is_malformed_at(attr.span, SKIP_SHAPE@),
        },
        Ok(_) => false,
    }
}

/// Whether a `skip(...)` directive with these arguments is read without error.
pub open spec fn skip_ok(args: Seq<NestedArg>) -> bool {
    forall|i: int| 0 <= i < args.len() ==> (#[trigger] skip_arg(args[i])) is Some
}

/// What a `format(...)` directive stands for.
pub open spec fn format_result(attr: MetaList, r: Result<Format, Error>) -> bool {
    if style_directive(attr.nested@) is Some {
        r matches Ok(f) && Some(f.0@) == style_directive(attr.nested@)
    } else {
        r matches Err(e) && style_error(attr, FORMAT_SHAPE@, e)
    }
}

/// Whether directive `i` of a type is read without error: it is a `format`
/// or a `skip` not given before, and reads well.
pub open spec fn type_directive_ok(lists: Seq<MetaList>, i: int) -> bool {
    let l = lists[i];
    if has_key(l, "format"@) {
        !key_seen(lists, i, "format"@) && style_directive(l.nested@) is Some
    } else if has_key(l, "skip"@) {
        !key_seen(lists, i, "skip"@) && skip_ok(l.nested@)
    } else {
        false
    }
}

/// The error that directive `i` of a type gets when it is not read.
pub open spec fn type_directive_error(lists: Seq<MetaList>, i: int, e: Error) -> bool {
    let l = lists[i];
    if has_key(l, "format"@) {
        if key_seen(lists, i, "format"@) {
            e.single(Problem::DuplicateAttribute, l.span)
        } else {
            format_result(l, Err(e))
        }
    } else if has_key(l, "skip"@) {
        if key_seen(lists, i, "skip"@) {
            e.single(Problem::DuplicateAttribute, l.span)
        } else {
            skip_result(l, Err(e))
        }
    } else {
        e.single(Problem::UnknownAttribute, l.span)
    }
}

/// The directives of one type.
pub struct Attrs {
    pub format: Option<Format>,
    pub skip: Option<Skip>,
}

/// What reading the directives `lists` of one type gives.
pub open spec fn type_attrs_result(lists: Seq<MetaList>, r: Result<Attrs, Error>) -> bool {
    if forall|i: int| 0 <= i < lists.len() ==> #[trigger] type_directive_ok(lists, i) {
        r matches Ok(a) && (a.format is Some <==> key_seen(lists, lists.len() as int, "format"@))
            && (a.skip is Some <==> key_seen(lists, lists.len() as int, "skip"@)) && (forall|
            i: int,
        |
            0 <= i < lists.len() && has_key(#[trigger] lists[i], "format"@) ==> format_result(
                lists[i],
                Ok(a.format->0),
            )) && (forall|i: int|
            0 <= i < lists.len() && has_key(#[trigger] lists[i], "skip"@) ==> skip_result(
                lists[i],
                Ok(a.skip->0),
            ))
    } else {
        exists|i: int|
            0 <= i < lists.len() && !(#[trigger] type_directive_ok(lists, i)) && (forall|j: int|
                0 <= j < i ==> #[trigger] type_directive_ok(lists, j)) && (r matches Err(e)
                && type_directive_error(lists, i, e))
    }
}

/// The capabilities to generate: the default list, in its order, without
/// those that `skip` names.
pub open spec fn selected_impls(skip: Option<Skip>) -> Seq<Impl> {
    default_impls().filter(|imp: Impl| !(skip matches Some(s) && s.0@.contains(imp)))
}

impl Attrs {
    /// Reads the directives of one type, each given at most once.
    pub fn from_attrs(attrs: Vec<MetaList>) -> (r: Result<Self, Error>)
        ensures
            type_attrs_result(attrs@, r),
    {
        proof {
            reveal_strlit("format");
            reveal_strlit("skip");
            assert("format"@.len() != "skip"@.len());
        }
        let ghost lists = attrs@;
        let n = attrs.len();
        let mut rest = attrs;
        let mut format: Option<Format> = None;
        let mut skip: Option<Skip> = None;
        let mut k: usize = 0;
        while rest.len() > 0
            invariant
                "format"@ != "skip"@,
                lists == attrs@,
                lists.len() == n,
                k <= n,
                k + rest@.len() == n,
                rest@ == lists.skip(k as int),
                forall|i: int| 0 <= i < k ==> #[trigger] type_directive_ok(lists, i),
                format is Some <==> key_seen(lists, k as int, "format"@),
                skip is Some <==> key_seen(lists, k as int, "skip"@),
                forall|i: int|
                    0 <= i < k && has_key(#[trigger] lists[i], "format"@) ==> format_result(
                        lists[i],
                        Ok(format->0),
                    ),
                forall|i: int|
                    0 <= i < k && has_key(#[trigger] lists[i], "skip"@) ==> skip_result(
                        lists[i],
                        Ok(skip->0),
                    ),
            decreases rest@.len(),
        {
            let list = rest.remove(0);
            assert(list == lists[k as int]);
            assert(rest@ =~= lists.skip(k + 1));
            let span = list.span;
            let key: u8 = match &list.path {
                Some(p) => if str_eq(p.as_str(), "format") {
                    1
                } else if str_eq(p.as_str(), "skip") {
                    2
                } else {
                    0
                },
                None => 0,
            };
            assert(key == 1 <==> has_key(list, "format"@));
            assert(key == 2 <==> has_key(list, "skip"@));
            proof {
                lemma_key_seen_step(lists, k as int);
            }
            if key == 1 {
                if format.is_some() {
                    assert(!type_directive_ok(lists, k as int));
                    return Err(Error::new(Problem::DuplicateAttribute, span));
                }
                match Format::from_attr(list) {
                    Ok(x) => {
                        format = Some(x);
                    },
                    Err(e) => {
                        assert(!type_directive_ok(lists, k as int));
                        return Err(e);
                    },
                }
            } else if key == 2 {
                if skip.is_some() {
                    assert(!type_directive_ok(lists, k as int));
                    return Err(Error::new(Problem::DuplicateAttribute, span));
                }
                match Skip::from_attr(list) {
                    Ok(x) => {
                        skip = Some(x);
                    },
                    Err(e) => {
                        assert(!type_directive_ok(lists, k as int));
                        return Err(e);
                    },
                }
            } else {
                assert(!type_directive_ok(lists, k as int));
                return Err(Error::new(Problem::UnknownAttribute, span));
            }
            assert(type_directive_ok(lists, k as int));
            k = k + 1;
        }
        Ok(Attrs { format, skip })
    }

    /// Whether the type asks not to have `imp` generated.
    #[inline]
    pub fn should_skip(&self, imp: Impl) -> (r: bool)
        ensures
            r == (self.skip matches Some(s) && s.0@.contains(imp)),
    {
        match &self.skip {
            Some(s) => s.should_skip(imp),
            None => false,
        }
    }

    /// The capabilities to generate for this type, in the order they are emitted.
    pub fn selected_impls(&self) -> (r: Vec<Impl>)
        ensures
            r@ == selected_impls(self.skip),
    {
        let all = Impl::default();
        let mut r: Vec<Impl> = Vec::new();
        let mut i: usize = 0;
        while i < 7
            invariant
                all@ == default_impls(),
                i <= 7,
                r@ == default_impls().take(i as int).filter(
                    |imp: Impl| !(self.skip matches Some(s) && s.0@.contains(imp)),
                ),
            decreases 7 - i,
        {
            let imp = all[i];
            proof {
                reveal(Seq::filter);
                assert(default_impls().take(i + 1).drop_last() =~= default_impls().take(i as int));
            }
            if !self.should_skip(imp) {
                r.push(imp);
            }
            i = i + 1;
        }
        assert(default_impls().take(7) =~= default_impls());
        r
    }
}

impl Skip {
    /// Reads a `skip(...)` directive: a list of capability names.
    pub fn from_attr(attr: MetaList) -> (r: Result<Self, Error>)
        ensures
            skip_result(attr, r),
    {
        let ghost args = attr.nested@;
        let mut vec: Vec<Impl> = Vec::new();
        let mut k: usize = 0;
        while k < attr.nested.len()
            invariant
                args == attr.nested@,
                k <= args.len(),
                vec@.len() == k,
                forall|i: int|
                    #![trigger vec@[i]]
                    #![trigger skip_arg(args[i])]
                    0 <= i < k ==> Some(vec@[i]) == skip_arg(args[i]),
            decreases args.len() - k,
        {
            match &attr.nested[k] {
                NestedArg::Path { ident: Some(id) } => {
                    let name = id.string.as_str();
                    let imp = if str_eq(name, "TryFromString") {
                        Impl::TryFromString
                    } else if str_eq(name, "FromStr") {
                        Impl::FromStr
                    } else if str_eq(name, "AsRefStr") {
                        Impl::AsRefStr
                    } else if str_eq(name, "IntoString") {
                        Impl::IntoString
                    } else if str_eq(name, "Display") {
                        Impl::Display
                    } else if str_eq(name, "Serialize") {
                        Impl::Serialize
                    } else if str_eq(name, "Deserialize") {
                        Impl::Deserialize
                    } else {
                        assert(skip_arg(args[k as int]) is None);
                        assert(forall|j: int| 0 <= j < k ==> (#[trigger] skip_arg(args[j])) is Some);
                        return Err(Error::new(Problem::UnknownSkip, id.span));
                    };
                    vec.push(imp);
                },
                _ => {
                    assert(skip_arg(args[k as int]) is None);
                    assert(forall|j: int| 0 <= j < k ==> (#[trigger] skip_arg(args[j])) is Some);
                    return Err(
                        Error::new(Problem::Malformed { expected: SKIP_SHAPE.to_owned() }, attr.span),
                    );
                },
            }
            k = k + 1;
        }
        Ok(Skip(vec))
    }

    /// Whether `imp` is among the skipped capabilities.
    pub fn should_skip(&self, imp: Impl) -> (r: bool)
        ensures
            r == self.0@.contains(imp),
    {
        let mut i: usize = 0;
        while i < self.0.len()
            invariant
                i <= self.0@.len(),
                forall|j: int| 0 <= j < i ==> self.0@[j] != imp,
            decreases self.0@.len() - i,
        {
            if self.0[i] == imp {
                return true;
            }
            i = i + 1;
        }
        false
    }
}

impl Format {
    /// Reads a `format(style = "...", separator = "...")` directive.
    pub fn from_attr(attr: MetaList) -> (r: Result<Self, Error>)
        ensures
            style_directive(attr.nested@) matches Some(st) ==> r matches Ok(f) && f.0@ == st,
            style_directive(attr.nested@) is None ==> (r matches Err(e) && style_error(
                attr,
                FORMAT_SHAPE@,
                e,
            )),
    {
        match FormatCase::from_attr(&attr, FORMAT_SHAPE) {
            Ok(f) => Ok(Format(f)),
            Err(e) => Err(e),
        }
    }

    /// The identifier `s` written in the type's default style.
    #[inline]
    pub fn format(&self, s: &str) -> (r: String)
        ensures
            r@ == self.0.formatted(s@),
            s@.len() > 0 ==> r@.len() > 0,
    {
        self.0.format(s)
    }
}

} // verus!
