use crate::directive::{has_key, key_seen, lemma_key_seen_step, Error, MetaList, NestedArg, Problem};
use crate::format_case::{style_arg, style_args_ok, style_directive, style_error, FormatCase};
use crate::utils::{str_eq, SpannedString};
use vstd::prelude::*;

verus! {

/// The shapes a `rename` directive may have.
pub const RENAME_SHAPE: &'static str = "rename(\"...\") or rename(style = \"...\")";

/// The shape an `aliases` directive must have.
pub const ALIASES_SHAPE: &'static str = "aliases(\"...\",*)";

/// How a variant's canonical name is given on the variant itself.
pub enum Rename {
    /// A literal replacement string.
    Renamed(SpannedString),
    /// A style applied to the variant's own identifier.
    Format(FormatCase),
}

/// The literal alias strings of a variant, in the order written.
pub struct Aliases(pub Vec<SpannedString>);

/// Whether `a` is a string literal that is not empty.
pub open spec fn nonempty_literal(a: NestedArg) -> bool {
    a matches NestedArg::Str(s) && s.string@.len() > 0
}

/// Whether a directive's arguments are one non-empty string literal and nothing else.
pub open spec fn single_literal(args: Seq<NestedArg>) -> bool {
    args.len() == 1 && nonempty_literal(args[0])
}

/// Whether a directive's arguments have the shape of a style:
/// `style = "..."` with an optional `separator = "..."`.
pub open spec fn style_shaped(args: Seq<NestedArg>) -> bool {
    style_args_ok(args) && style_arg(args) is Some
}

/// What a `rename(...)` directive with these arguments stands for: a style
/// when they have a style's shape (with that style's error when it selects
/// none), else the one non-empty literal they hold.
pub open spec fn rename_result(attr: MetaList, r: Result<Rename, Error>) -> bool {
    let args = attr.nested@;
    if style_directive(args) is Some {
        r matches Ok(Rename::Format(f)) && Some(f@) == style_directive(args)
    } else if style_shaped(args) {
        r matches Err(e) && style_error(attr, RENAME_SHAPE@, e)
    } else if single_literal(args) {
        r matches Ok(Rename::Renamed(s)) && s == args[0]->Str_0
    } else {
        r matches Err(e) && e.is_malformed_at(attr.span, RENAME_SHAPE@)
    }
}

/// Whether every argument is a non-empty string literal.
pub open spec fn all_literals(args: Seq<NestedArg>) -> bool {
    forall|i: int| 0 <= i < args.len() ==> nonempty_literal(#[trigger] args[i])
}

/// What an `aliases(...)` directive with these arguments stands for: its
/// literals in order, when there is at least one, none is empty, and there
/// is nothing else.
pub open spec fn aliases_result(attr: MetaList, r: Result<Aliases, Error>) -> bool {
    let args = attr.nested@;
    if args.len() > 0 && all_literals(args) {
        r matches Ok(a) && a.0@.len() == args.len() && forall|i: int|
            0 <= i < args.len() ==> a.0@[i] == (#[trigger] args[i])->Str_0
    } else {
        r matches Err(e) && e.is_malformed_at(attr.span, ALIASES_SHAPE@)
    }
}

/// Whether a `rename(...)` directive with these arguments is read without error.
pub open spec fn rename_ok(args: Seq<NestedArg>) -> bool {
    style_directive(args) is Some || single_literal(args)
}

/// Whether an `aliases(...)` directive with these arguments is read without error.
pub open spec fn aliases_ok(args: Seq<NestedArg>) -> bool {
    args.len() > 0 && all_literals(args)
}

/// Whether directive `i` of a variant is read without error: it is a
/// `rename` or an `aliases` not given before, and reads well.
pub open spec fn variant_directive_ok(lists: Seq<MetaList>, i: int) -> bool {
    let l = lists[i];
    if has_key(l, "rename"@) {
        !key_seen(lists, i, "rename"@) && rename_ok(l.nested@)
    } else if has_key(l, "aliases"@) {
        !key_seen(lists, i, "aliases"@) && aliases_ok(l.nested@)
    } else {
        false
    }
}

/// The error that directive `i` of a variant gets when it is not read.
pub open spec fn variant_directive_error(lists: Seq<MetaList>, i: int, e: Error) -> bool {
    let l = lists[i];
    if has_key(l, "rename"@) {
        if key_seen(lists, i, "rename"@) {
            e.single(Problem::DuplicateAttribute, l.span)
        } else {
            rename_result(l, Err(e))
        }
    } else if has_key(l, "aliases"@) {
        if key_seen(lists, i, "aliases"@) {
            e.single(Problem::DuplicateAttribute, l.span)
        } else {
            aliases_result(l, Err(e))
        }
    } else {
        e.single(Problem::UnknownAttribute, l.span)
    }
}

/// The directives of one variant.
pub struct Attrs {
    pub aliases: Option<Aliases>,
    pub rename: Option<Rename>,
}

/// What reading the directives `lists` of one variant gives.
pub open spec fn variant_attrs_result(lists: Seq<MetaList>, r: Result<Attrs, Error>) -> bool {
    if forall|i: int| 0 <= i < lists.len() ==> #[trigger] variant_directive_ok(lists, i) {
        r matches Ok(a) && (a.rename is Some <==> key_seen(lists, lists.len() as int, "rename"@))
            && (a.aliases is Some <==> key_seen(lists, lists.len() as int, "aliases"@)) && (forall|
            i: int,
        |
            0 <= i < lists.len() && has_key(#[trigger] lists[i], "rename"@) ==> rename_result(
                lists[i],
                Ok(a.rename->0),
            )) && (forall|i: int|
            0 <= i < lists.len() && has_key(#[trigger] lists[i], "aliases"@) ==> aliases_result(
                lists[i],
                Ok(a.aliases->0),
            ))
    } else {
        exists|i: int|
            0 <= i < lists.len() && !(#[trigger] variant_directive_ok(lists, i)) && (forall|j: int|
                0 <= j < i ==> #[trigger] variant_directive_ok(lists, j)) && (r matches Err(e)
                && variant_directive_error(lists, i, e))
    }
}

impl Attrs {
    /// Reads the directives of one variant, each given at most once.
    pub fn from_attrs(attrs: Vec<MetaList>) -> (r: Result<Self, Error>)
        ensures
            variant_attrs_result(attrs@, r),
    {
        proof {
            reveal_strlit("rename");
            reveal_strlit("aliases");
            assert("rename"@.len() != "aliases"@.len());
        }
        let ghost lists = attrs@;
        let n = attrs.len();
        let mut rest = attrs;
        let mut rename: Option<Rename> = None;
        let mut aliases: Option<Aliases> = None;
        let mut k: usize = 0;
        while rest.len() > 0
            invariant
                "rename"@ != "aliases"@,
                lists == attrs@,
                lists.len() == n,
                k <= n,
                k + rest@.len() == n,
                rest@ == lists.skip(k as int),
                forall|i: int| 0 <= i < k ==> #[trigger] variant_directive_ok(lists, i),
                rename is Some <==> key_seen(lists, k as int, "rename"@),
                aliases is Some <==> key_seen(lists, k as int, "aliases"@),
                forall|i: int|
                    0 <= i < k && has_key(#[trigger] lists[i], "rename"@) ==> rename_result(
                        lists[i],
                        Ok(rename->0),
                    ),
                forall|i: int|
                    0 <= i < k && has_key(#[trigger] lists[i], "aliases"@) ==> aliases_result(
                        lists[i],
                        Ok(aliases->0),
                    ),
            decreases rest@.len(),
        {
            let list = rest.remove(0);
            assert(list == lists[k as int]);
            assert(rest@ =~= lists.skip(k + 1));
            let span = list.span;
            let key: u8 = match &list.path {
                Some(p) => if str_eq(p.as_str(), "rename") {
                    1
                } else if str_eq(p.as_str(), "aliases") {
                    2
                } else {
                    0
                },
                None => 0,
            };
            assert(key == 1 <==> has_key(list, "rename"@));
            assert(key == 2 <==> has_key(list, "aliases"@));
            proof {
                lemma_key_seen_step(lists, k as int);
            }
            if key == 1 {
                if rename.is_some() {
                    assert(!variant_directive_ok(lists, k as int));
                    return Err(Error::new(Problem::DuplicateAttribute, span));
                }
                match Rename::from_attr(list) {
                    Ok(x) => {
                        rename = Some(x);
                    },
                    Err(e) => {
                        assert(!variant_directive_ok(lists, k as int));
                        return Err(e);
                    },
                }
            } else if key == 2 {
                if aliases.is_some() {
                    assert(!variant_directive_ok(lists, k as int));
                    return Err(Error::new(Problem::DuplicateAttribute, span));
                }
                match Aliases::from_attr(list) {
                    Ok(x) => {
                        aliases = Some(x);
                    },
                    Err(e) => {
                        assert(!variant_directive_ok(lists, k as int));
                        return Err(e);
                    },
                }
            } else {
                assert(!variant_directive_ok(lists, k as int));
                return Err(Error::new(Problem::UnknownAttribute, span));
            }
            assert(variant_directive_ok(lists, k as int));
            k = k + 1;
        }
        Ok(Attrs { aliases, rename })
    }
}

impl Rename {
    /// Reads a `rename(...)` directive: a style, or else one literal.
    pub fn from_attr(attr: MetaList) -> (r: Result<Self, Error>)
        ensures
            rename_result(attr, r),
    {
        match FormatCase::from_attr(&attr, RENAME_SHAPE) {
            Ok(format) => {
                return Ok(Rename::Format(format));
            },
            Err(e) => {
                if !matches!(e.diagnostics[0].problem, Problem::Malformed { .. }) {
                    return Err(e);
                }
            },
        }
        let span = attr.span;
        let mut nested = attr.nested;
        if nested.len() == 1 {
            if let Some(NestedArg::Str(s)) = nested.pop() {
                if !s.string.as_str().is_empty() {
                    return Ok(Rename::Renamed(s));
                }
            }
        }
        Err(Error::new(Problem::Malformed { expected: RENAME_SHAPE.to_owned() }, span))
    }
}

impl Aliases {
    /// Reads an `aliases(...)` directive: one or more literals.
    pub fn from_attr(attr: MetaList) -> (r: Result<Self, Error>)
        ensures
            aliases_result(attr, r),
    {
        let span = attr.span;
        let ghost args = attr.nested@;
        let n = attr.nested.len();
        let mut nested = attr.nested;
        let mut vec: Vec<SpannedString> = Vec::new();
        let mut k: usize = 0;
        while nested.len() > 0
            invariant
                args.len() == n,
                span == attr.span,
                args == attr.nested@,
                k <= args.len(),
                k + nested@.len() == args.len(),
                nested@ == args.skip(k as int),
                vec@.len() == k,
                forall|i: int| 0 <= i < k ==> nonempty_literal(#[trigger] args[i]) && vec@[i] == args[i]->Str_0,
            decreases nested@.len(),
        {
            let a = nested.remove(0);
            assert(a == args[k as int]);
            match a {
                NestedArg::Str(s) if !s.string.as_str().is_empty() => vec.push(s),
                _ => {
                    assert(!nonempty_literal(args[k as int]));
                    return Err(Error::new(Problem::Malformed { expected: ALIASES_SHAPE.to_owned() }, span));
                },
            }
            assert(nested@ =~= args.skip(k + 1));
            k = k + 1;
        }
        if vec.len() == 0 {
            return Err(Error::new(Problem::Malformed { expected: ALIASES_SHAPE.to_owned() }, span));
        }
        Ok(Aliases(vec))
    }
}

} // verus!
