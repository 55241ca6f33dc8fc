use crate::directive::{Diagnostic, Error, Problem};
use crate::inner::{Attrs as InnerAttrs, Rename};
use crate::format_case::FormatCase;
use crate::outer::{Attrs as OuterAttrs, Format};
use crate::utils::{str_eq, SpannedString};
use proc_macro2::Span;
use vstd::prelude::*;

verus! {

/// A conversion that can be generated for an enum.
#[derive(PartialEq, Eq, Structural, Clone, Copy, Debug)]
pub enum Impl {
    AsRefStr,
    IntoString,
    Display,
    FromStr,
    TryFromString,
    Serialize,
    Deserialize,
}

/// The capabilities that are generated unless skipped, in the order they are emitted.
pub open spec fn default_impls() -> Seq<Impl> {
    seq![
        Impl::AsRefStr,
        Impl::IntoString,
        Impl::Display,
        Impl::FromStr,
        Impl::TryFromString,
        Impl::Serialize,
        Impl::Deserialize,
    ]
}

/// The capability spelled `name` in a skip list.
pub open spec fn impl_named(name: Seq<char>) -> Option<Impl> {
    if name == "TryFromString"@ {
        Some(Impl::TryFromString)
    } else if name == "FromStr"@ {
        Some(Impl::FromStr)
    } else if name == "AsRefStr"@ {
        Some(Impl::AsRefStr)
    } else if name == "IntoString"@ {
        Some(Impl::IntoString)
    } else if name == "Display"@ {
        Some(Impl::Display)
    } else if name == "Serialize"@ {
        Some(Impl::Serialize)
    } else if name == "Deserialize"@ {
        Some(Impl::Deserialize)
    } else {
        None
    }
}

/// The canonical name of a variant called `ident`: its literal rename, else
/// its own style applied to `ident`, else the type's default style applied to
/// `ident`, else `ident` itself.
pub open spec fn canonical_name(ident: Seq<char>, rename: Option<Rename>, default_style: Option<Format>) -> Seq<char> {
    match rename {
        Some(Rename::Renamed(s)) => s.string@,
        Some(Rename::Format(f)) => f.formatted(ident),
        None => match default_style {
            Some(f) => f.0.formatted(ident),
            None => ident,
        },
    }
}

/// Where the canonical name of a variant is located: at the literal of a
/// literal rename, else at the identifier.
pub open spec fn canonical_span(ident: Span, rename: Option<Rename>) -> Span {
    match rename {
        Some(Rename::Renamed(s)) => s.span,
        _ => ident,
    }
}

/// A variant with its canonical name and its aliases.
pub struct FormattedVariant {
    pub original: SpannedString,
    pub formatted: SpannedString,
    pub aliases: Vec<SpannedString>,
}

impl FormattedVariant {
    /// Every string that converts to this variant: its aliases, then its canonical name.
    pub open spec fn lookup_set(self) -> Seq<SpannedString> {
        self.aliases@.push(self.formatted)
    }

    /// Whether `s` converts to this variant.
    pub open spec fn names(self, s: Seq<char>) -> bool {
        exists|i: int| 0 <= i < self.lookup_set().len() && (#[trigger] self.lookup_set()[i]).string@ == s
    }

    /// Resolves the canonical name and the aliases of the variant `ident`.
    pub fn new(ident: SpannedString, inner_attr: InnerAttrs, outer_attr: &OuterAttrs) -> (r: Self)
        ensures
            r.original == ident,
            r.formatted.string@ == canonical_name(ident.string@, inner_attr.rename, outer_attr.format),
            r.formatted.span == canonical_span(ident.span, inner_attr.rename),
            inner_attr.rename matches Some(Rename::Renamed(s)) ==> r.formatted == s,
            r.aliases@ == match inner_attr.aliases {
                Some(a) => a.0@,
                None => seq![],
            },
            ident.string@.len() > 0 && (inner_attr.rename matches Some(Rename::Renamed(s))
                ==> s.string@.len() > 0) ==> r.formatted.string@.len() > 0,
    {
        let span = ident.span;
        let formatted = match inner_attr.rename {
            Some(Rename::Renamed(ren)) => ren,
            Some(Rename::Format(f)) => SpannedString::new(f.format(ident.string.as_str()), span),
            None => match &outer_attr.format {
                Some(f) => SpannedString::new(f.format(ident.string.as_str()), span),
                None => SpannedString::new(ident.string.clone(), span),
            },
        };
        let aliases = match inner_attr.aliases {
            Some(a) => a.0,
            None => Vec::new(),
        };
        FormattedVariant { original: ident, formatted, aliases }
    }

    /// The strings that convert to this variant, aliases first.
    pub fn iter(&self) -> (r: Vec<&SpannedString>)
        ensures
            r@.len() == self.lookup_set().len(),
            forall|i: int| 0 <= i < r@.len() ==> *(#[trigger] r@[i]) == self.lookup_set()[i],
    {
        let mut r: Vec<&SpannedString> = Vec::new();
        let mut i: usize = 0;
        while i < self.aliases.len()
            invariant
                i <= self.aliases@.len(),
                r@.len() == i,
                forall|j: int| 0 <= j < i ==> *(#[trigger] r@[j]) == self.aliases@[j],
            decreases self.aliases@.len() - i,
        {
            r.push(&self.aliases[i]);
            i = i + 1;
        }
        r.push(&self.formatted);
        r
    }
}

/// All strings of a table, variant by variant, each variant's in the order of
/// its lookup set.
pub open spec fn entries(table: Seq<FormattedVariant>) -> Seq<SpannedString>
    decreases table.len(),
{
    if table.len() == 0 {
        seq![]
    } else {
        entries(table.drop_last()) + table.last().lookup_set()
    }
}

/// Whether no two strings of `es` are equal.
pub open spec fn no_duplicates(es: Seq<SpannedString>) -> bool {
    forall|i: int, j: int|
        0 <= i < j < es.len() ==> (#[trigger] es[i]).string@ != (#[trigger] es[j]).string@
}

/// The position of the first string among the first `n` of `es` equal to `s`.
pub open spec fn first_with(es: Seq<SpannedString>, s: Seq<char>, n: int) -> Option<int>
    decreases n,
{
    if n <= 0 {
        None
    } else {
        match first_with(es, s, n - 1) {
            Some(i) => Some(i),
            None => if es[n - 1].string@ == s {
                Some(n - 1)
            } else {
                None
            },
        }
    }
}

/// The two diagnostics of a duplicate: at the new location, then at the
/// first location the same string was seen.
pub open spec fn duplicate_pair(new: SpannedString, first: Span) -> Seq<Diagnostic> {
    seq![
        Diagnostic { problem: Problem::DuplicateValue { value: new.string }, span: new.span },
        Diagnostic { problem: Problem::DuplicateValue { value: new.string }, span: first },
    ]
}

/// Every duplicate among the first `n` strings of `es`, in order: one pair for
/// each string equal to an earlier one.
pub open spec fn duplicates(es: Seq<SpannedString>, n: int) -> Seq<Diagnostic>
    decreases n,
{
    if n <= 0 {
        seq![]
    } else {
        duplicates(es, n - 1) + match first_with(es, es[n - 1].string@, n - 1) {
            Some(f) => duplicate_pair(es[n - 1], es[f].span),
            None => seq![],
        }
    }
}

proof fn lemma_first_with_none(es: Seq<SpannedString>, s: Seq<char>, n: int)
    requires
        0 <= n <= es.len(),
    ensures
        first_with(es, s, n) is None <==> forall|m: int| 0 <= m < n ==> (#[trigger] es[m]).string@ != s,
    decreases n,
{
    if n > 0 {
        lemma_first_with_none(es, s, n - 1);
    }
}

proof fn lemma_entries_step(table: Seq<FormattedVariant>, v: int)
    requires
        0 <= v < table.len(),
    ensures
        entries(table.take(v + 1)) == entries(table.take(v)) + table[v].lookup_set(),
{
    assert(table.take(v + 1).drop_last() =~= table.take(v));
}

/// Checks that no string converts to two variants, or to one variant twice,
/// and reports every string that does.
pub fn check_if_duplicate(fmtd: &[FormattedVariant]) -> (r: Result<(), Error>)
    ensures
        r is Ok <==> no_duplicates(entries(fmtd@)),
        r matches Err(e) ==> e.diagnostics@ == duplicates(entries(fmtd@), entries(fmtd@).len() as int),
{
    let ghost table = fmtd@;
    let mut es: Vec<&SpannedString> = Vec::new();
    let mut v: usize = 0;
    while v < fmtd.len()
        invariant
            table == fmtd@,
            v <= table.len(),
            es@.len() == entries(table.take(v as int)).len(),
            forall|i: int| 0 <= i < es@.len() ==> *(#[trigger] es@[i]) == entries(table.take(v as int))[i],
        decreases table.len() - v,
    {
        let items = fmtd[v].iter();
        proof {
            lemma_entries_step(table, v as int);
        }
        let ghost before = es@.len();
        let mut i: usize = 0;
        while i < items.len()
            invariant
                table == fmtd@,
                v < table.len(),
                items@.len() == table[v as int].lookup_set().len(),
                forall|k: int| 0 <= k < items@.len() ==> *(#[trigger] items@[k]) == table[v as int].lookup_set()[k],
                entries(table.take(v + 1)) == entries(table.take(v as int)) + table[v as int].lookup_set(),
                before == entries(table.take(v as int)).len(),
                i <= items@.len(),
                es@.len() == before + i,
                forall|k: int| 0 <= k < es@.len() ==> *(#[trigger] es@[k]) == entries(table.take(v + 1))[k],
            decreases items@.len() - i,
        {
            es.push(items[i]);
            i = i + 1;
        }
        v = v + 1;
    }
    assert(table.take(table.len() as int) =~= table);
    let ghost all = entries(table);
    let mut diagnostics: Vec<Diagnostic> = Vec::new();
    let mut j: usize = 0;
    while j < es.len()
        invariant
            es@.len() == all.len(),
            forall|i: int| 0 <= i < es@.len() ==> *(#[trigger] es@[i]) == all[i],
            j <= es@.len(),
            diagnostics@ == duplicates(all, j as int),
            diagnostics@.len() == 0 <==> forall|a: int, b: int|
                0 <= a < b < j ==> (#[trigger] all[a]).string@ != (#[trigger] all[b]).string@,
        decreases es@.len() - j,
    {
        let cur = es[j];
        let ghost s = cur.string@;
        let mut i: usize = 0;
        let mut first: Option<usize> = None;
        while i < j
            invariant
                es@.len() == all.len(),
                forall|k: int| 0 <= k < es@.len() ==> *(#[trigger] es@[k]) == all[k],
                j < es@.len(),
                *cur == all[j as int],
                s == all[j as int].string@,
                i <= j,
                first is None ==> first_with(all, s, i as int) is None,
                first matches Some(f) ==> first_with(all, s, i as int) == Some(f as int) && f < i,
            decreases j - i,
        {
            if first.is_none() && es[i].string == cur.string {
                first = Some(i);
            }
            i = i + 1;
        }
        proof {
            lemma_first_with_none(all, s, j as int);
        }
        match first {
            Some(f) => {
                diagnostics.push(Diagnostic {
                    problem: Problem::DuplicateValue { value: cur.string.clone() },
                    span: cur.span,
                });
                diagnostics.push(Diagnostic {
                    problem: Problem::DuplicateValue { value: cur.string.clone() },
                    span: es[f].span,
                });
            },
            None => {},
        }
        assert(diagnostics@ =~= duplicates(all, j + 1));
        j = j + 1;
    }
    if diagnostics.len() == 0 {
        Ok(())
    } else {
        Err(Error { diagnostics })
    }
}

/// The first variant of `table` that `s` converts to.
pub open spec fn lookup_index(table: Seq<FormattedVariant>, s: Seq<char>) -> Option<int>
    decreases table.len(),
{
    if table.len() == 0 {
        None
    } else {
        match lookup_index(table.drop_last(), s) {
            Some(k) => Some(k),
            None => if table.last().names(s) {
                Some(table.len() - 1)
            } else {
                None
            },
        }
    }
}

proof fn lemma_lookup_step(table: Seq<FormattedVariant>, s: Seq<char>, v: int)
    requires
        0 <= v < table.len(),
    ensures
        lookup_index(table.take(v + 1), s) == match lookup_index(table.take(v), s) {
            Some(k) => Some(k),
            None => if table[v].names(s) {
                Some(v)
            } else {
                None
            },
        },
{
    assert(table.take(v + 1).drop_last() =~= table.take(v));
}

/// Converts a string back to the variant it names: the index of the first
/// variant whose canonical name or one of whose aliases is `s`, exactly.
pub fn lookup(fmtd: &[FormattedVariant], s: &str) -> (r: Option<usize>)
    ensures
        r matches Some(k) ==> lookup_index(fmtd@, s@) == Some(k as int),
        r is None ==> lookup_index(fmtd@, s@) is None,
{
    let ghost table = fmtd@;
    let mut v: usize = 0;
    while v < fmtd.len()
        invariant
            table == fmtd@,
            v <= table.len(),
            lookup_index(table.take(v as int), s@) is None,
        decreases table.len() - v,
    {
        let items = fmtd[v].iter();
        proof {
            lemma_lookup_step(table, s@, v as int);
        }
        let mut i: usize = 0;
        while i < items.len()
            invariant
                table == fmtd@,
                v < table.len(),
                lookup_index(table.take(v as int), s@) is None,
                items@.len() == table[v as int].lookup_set().len(),
                forall|k: int| 0 <= k < items@.len() ==> *(#[trigger] items@[k]) == table[v as int].lookup_set()[k],
                i <= items@.len(),
                forall|k: int| 0 <= k < i ==> (#[trigger] table[v as int].lookup_set()[k]).string@ != s@,
            decreases items@.len() - i,
        {
            if str_eq(items[i].string.as_str(), s) {
                assert(table[v as int].names(s@)) by {
                    assert(table[v as int].lookup_set()[i as int].string@ == s@);
                }
                assert(fmtd@.take(fmtd@.len() as int) =~= fmtd@);
                proof {
                    lemma_lookup_step(table, s@, v as int);
                    lemma_lookup_prefix(table, s@, v + 1, table.len() as int);
                }
                return Some(v);
            }
            i = i + 1;
        }
        v = v + 1;
    }
    assert(table.take(table.len() as int) =~= table);
    None
}

proof fn lemma_lookup_prefix(table: Seq<FormattedVariant>, s: Seq<char>, n: int, m: int)
    requires
        0 <= n <= m <= table.len(),
        lookup_index(table.take(n), s) is Some,
    ensures
        lookup_index(table.take(m), s) == lookup_index(table.take(n), s),
    decreases m - n,
{
    if m > n {
        lemma_lookup_prefix(table, s, n, m - 1);
        lemma_lookup_step(table, s, m - 1);
    }
}

proof fn lemma_lookup_found(table: Seq<FormattedVariant>, s: Seq<char>)
    requires
        lookup_index(table, s) is Some,
    ensures
        0 <= lookup_index(table, s)->0 < table.len(),
        table[lookup_index(table, s)->0].names(s),
    decreases table.len(),
{
    if lookup_index(table.drop_last(), s) is Some {
        lemma_lookup_found(table.drop_last(), s);
    }
}

proof fn lemma_entries_position(table: Seq<FormattedVariant>, k: int, i: int)
    requires
        0 <= k < table.len(),
        0 <= i < table[k].lookup_set().len(),
    ensures
        entries(table.take(k)).len() + i < entries(table).len(),
        entries(table)[entries(table.take(k)).len() + i] == table[k].lookup_set()[i],
    decreases table.len(),
{
    let p = table.drop_last();
    if k == table.len() - 1 {
        assert(table.take(k) =~= p);
    } else {
        assert(p.take(k) =~= table.take(k));
        lemma_entries_position(p, k, i);
    }
}

/// In a table where no string is claimed twice, each canonical name and each
/// alias converts back to the variant it belongs to, and to no other.
pub proof fn lemma_round_trip(table: Seq<FormattedVariant>, k: int, i: int)
    requires
        no_duplicates(entries(table)),
        0 <= k < table.len(),
        0 <= i < table[k].lookup_set().len(),
    ensures
        lookup_index(table, table[k].lookup_set()[i].string@) == Some(k),
    decreases table.len(),
{
    let s = table[k].lookup_set()[i].string@;
    let p = table.drop_last();
    let es = entries(table);
    assert(entries(p) == es.take(entries(p).len() as int)) by {
        assert(es.take(entries(p).len() as int) =~= entries(p));
    }
    assert(no_duplicates(entries(p))) by {
        assert forall|a: int, b: int| 0 <= a < b < entries(p).len() implies (#[trigger] entries(p)[a]).string@
            != (#[trigger] entries(p)[b]).string@ by {
            assert(entries(p)[a] == es[a] && entries(p)[b] == es[b]);
        }
    }
    if k < table.len() - 1 {
        assert(p[k] == table[k]);
        lemma_round_trip(p, k, i);
    } else {
        assert(table[k].names(s));
        if lookup_index(p, s) is Some {
            let j = lookup_index(p, s)->0;
            lemma_lookup_found(p, s);
            let i2 = choose|i2: int| 0 <= i2 < p[j].lookup_set().len() && (#[trigger] p[j].lookup_set()[i2]).string@ == s;
            lemma_entries_position(p, j, i2);
            assert(es[entries(p.take(j)).len() + i2] == entries(p)[entries(p.take(j)).len() + i2]);
            assert(table.take(k) =~= p);
            lemma_entries_position(table, k, i);
            assert(false);
        }
    }
}

/// A variant that has both a rename by style and a type-level default style
/// gets the name its own style gives, whatever the default.
pub proof fn lemma_own_style_wins(ident: Seq<char>, own: FormatCase, default_style: Format)
    ensures
        canonical_name(ident, Some(Rename::Format(own)), Some(default_style)) == own.formatted(ident),
{
}

proof fn lemma_entries_of_bare(table: Seq<FormattedVariant>)
    requires
        forall|k: int| 0 <= k < table.len() ==> (#[trigger] table[k]).aliases@.len() == 0,
    ensures
        entries(table).len() == table.len(),
        forall|k: int| 0 <= k < table.len() ==> (#[trigger] entries(table)[k]) == table[k].formatted,
    decreases table.len(),
{
    if table.len() > 0 {
        let p = table.drop_last();
        assert(forall|k: int| 0 <= k < p.len() ==> #[trigger] p[k] == table[k]);
        lemma_entries_of_bare(p);
        assert(table.last().lookup_set() =~= seq![table.last().formatted]);
    }
}

/// Two variants, without aliases, whose canonical names are equal give
/// exactly one pair of diagnostics: one at each of the two names.
pub proof fn lemma_two_collide(table: Seq<FormattedVariant>)
    requires
        table.len() == 2,
        table[0].aliases@.len() == 0,
        table[1].aliases@.len() == 0,
        table[0].formatted.string@ == table[1].formatted.string@,
    ensures
        duplicates(entries(table), entries(table).len() as int) == duplicate_pair(
            table[1].formatted,
            table[0].formatted.span,
        ),
{
    let es = entries(table);
    lemma_entries_of_bare(table);
    assert(es =~= seq![table[0].formatted, table[1].formatted]);
    assert(first_with(es, es[0].string@, 0) is None);
    assert(duplicates(es, 0) =~= seq![]);
    assert(duplicates(es, 1) =~= seq![]);
    assert(duplicates(es, 2) =~= duplicate_pair(es[1], es[0].span));
}

/// Three variants, without aliases, whose canonical names are all equal give
/// two pairs of diagnostics, which between them point at all three names.
pub proof fn lemma_three_collide(table: Seq<FormattedVariant>)
    requires
        table.len() == 3,
        table[0].aliases@.len() == 0,
        table[1].aliases@.len() == 0,
        table[2].aliases@.len() == 0,
        table[0].formatted.string@ == table[1].formatted.string@,
        table[0].formatted.string@ == table[2].formatted.string@,
    ensures
        duplicates(entries(table), entries(table).len() as int) == duplicate_pair(
            table[1].formatted,
            table[0].formatted.span,
        ) + duplicate_pair(table[2].formatted, table[0].formatted.span),
{
    let es = entries(table);
    lemma_entries_of_bare(table);
    assert(es =~= seq![table[0].formatted, table[1].formatted, table[2].formatted]);
    assert(first_with(es, es[0].string@, 0) is None);
    assert(duplicates(es, 0) =~= seq![]);
    assert(duplicates(es, 1) =~= seq![]);
    assert(duplicates(es, 2) =~= duplicate_pair(es[1], es[0].span));
    assert(first_with(es, es[2].string@, 2) == Some(0int));
    assert(duplicates(es, 3) =~= duplicate_pair(es[1], es[0].span) + duplicate_pair(es[2], es[0].span));
}

impl Impl {
    /// All capabilities, in the order they are emitted.
    pub fn default() -> (r: [Self; 7])
        ensures
            r@ == default_impls(),
    {
        let r = [
            Self::AsRefStr,
            Self::IntoString,
            Self::Display,
            Self::FromStr,
            Self::TryFromString,
            Self::Serialize,
            Self::Deserialize,
        ];
        assert(r@ =~= default_impls());
        r
    }
}

} // verus!
