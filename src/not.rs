use crate::directive::{Error, Problem};
use crate::utils::SpannedString;
use proc_macro2::Span;
use vstd::prelude::*;

verus! {

/// How `!` maps the variants of an enum.
#[derive(PartialEq, Eq, Structural, Clone, Copy, Debug)]
pub enum NotShape {
    /// The only variant maps to itself.
    Identity,
    /// The two variants map to each other.
    Swap,
    /// Each variant maps to the variant named in its `#[not(...)]`.
    ByAttribute,
}

/// How `!` maps an enum of `variants` variants: one maps to itself, two
/// without any `#[not]` map to each other, otherwise each says its image.
/// There is no mapping for an enum without variants.
pub fn not_shape(variants: usize, has_not_attr: bool) -> (r: Option<NotShape>)
    ensures
        r == if variants == 0 {
            None
        } else if variants == 1 {
            Some(NotShape::Identity)
        } else if variants == 2 && !has_not_attr {
            Some(NotShape::Swap)
        } else {
            Some(NotShape::ByAttribute)
        },
{
    if variants == 0 {
        None
    } else if variants == 1 {
        Some(NotShape::Identity)
    } else if variants == 2 && !has_not_attr {
        Some(NotShape::Swap)
    } else {
        Some(NotShape::ByAttribute)
    }
}

/// A variant, where it stands, and the variant its `#[not(...)]` names, if any.
pub struct NotVariant {
    pub ident: SpannedString,
    pub span: Span,
    pub partner: Option<SpannedString>,
}

/// What pairing the variants `vars` by their `#[not(...)]` gives: each
/// variant with the one it names, in order; or the error of the first
/// variant that names none. The pairing need not be symmetric, and a variant
/// may name itself.
pub open spec fn pairs_result(vars: Seq<NotVariant>, r: Result<Vec<(SpannedString, SpannedString)>, Error>) -> bool {
    if forall|i: int| 0 <= i < vars.len() ==> (#[trigger] vars[i]).partner is Some {
        r matches Ok(p) && p@.len() == vars.len() && forall|i: int|
            0 <= i < vars.len() ==> (#[trigger] p@[i]) == (vars[i].ident, vars[i].partner->0)
    } else {
        exists|i: int|
            0 <= i < vars.len() && (#[trigger] vars[i]).partner is None && (forall|j: int|
                0 <= j < i ==> (#[trigger] vars[j]).partner is Some) && (r matches Err(e) && e.single(
                Problem::MissingNot,
                vars[i].span,
            ))
    }
}

/// Pairs each variant with the variant its `#[not(...)]` names.
pub fn get_with_attrs(vars: Vec<NotVariant>) -> (r: Result<Vec<(SpannedString, SpannedString)>, Error>)
    ensures
        pairs_result(vars@, r),
{
    let ghost all = vars@;
    let n = vars.len();
    let mut rest = vars;
    let mut pairs: Vec<(SpannedString, SpannedString)> = Vec::new();
    let mut k: usize = 0;
    while rest.len() > 0
        invariant
            all == vars@,
            all.len() == n,
            k + rest@.len() == n,
            rest@ == all.skip(k as int),
            pairs@.len() == k,
            forall|i: int|
                0 <= i < k ==> (#[trigger] all[i]).partner is Some && pairs@[i] == (
                    all[i].ident,
                    all[i].partner->0,
                ),
        decreases rest@.len(),
    {
        let var = rest.remove(0);
        assert(var == all[k as int]);
        assert(rest@ =~= all.skip(k + 1));
        match var.partner {
            Some(partner) => pairs.push((var.ident, partner)),
            None => {
                return Err(Error::new(Problem::MissingNot, var.span));
            },
        }
        k = k + 1;
    }
    Ok(pairs)
}

} // verus!
