use crate::utils::{push_string, SpannedString};
use proc_macro2::Span;
use vstd::prelude::*;

verus! {

/// One argument inside a directive's parentheses, as the attribute reader
/// hands it over.
pub enum NestedArg {
    /// `key = literal`: `key` is there when the path is a single identifier,
    /// `value` when the literal is a string.
    NameValue { key: Option<String>, value: Option<SpannedString> },
    /// A string literal on its own.
    Str(SpannedString),
    /// A path on its own: `ident` is there when the path is a single identifier.
    Path { ident: Option<SpannedString> },
    /// Anything else.
    Other,
}

/// A directive such as `rename("...")`: its name, its arguments, and where it stands.
pub struct MetaList {
    /// The directive's name when its path is a single identifier.
    pub path: Option<String>,
    pub nested: Vec<NestedArg>,
    pub span: Span,
}

/// Whether the directive is called `key`.
pub open spec fn has_key(l: MetaList, key: Seq<char>) -> bool {
    l.path matches Some(p) && p@ == key
}

/// Whether one of the first `i` directives is called `key`.
pub open spec fn key_seen(lists: Seq<MetaList>, i: int, key: Seq<char>) -> bool {
    exists|j: int| 0 <= j < i && has_key(#[trigger] lists[j], key)
}

/// Looking one directive further: `key` is among the first `i + 1` when it
/// is among the first `i` or is directive `i` itself.
pub proof fn lemma_key_seen_step(lists: Seq<MetaList>, i: int)
    requires
        0 <= i < lists.len(),
    ensures
        forall|key: Seq<char>|
            #[trigger] key_seen(lists, i + 1, key) == (key_seen(lists, i, key) || has_key(lists[i], key)),
{
    assert forall|key: Seq<char>|
        #[trigger] key_seen(lists, i + 1, key) == (key_seen(lists, i, key) || has_key(lists[i], key)) by {
        if key_seen(lists, i + 1, key) {
            let j = choose|j: int| 0 <= j < i + 1 && has_key(#[trigger] lists[j], key);
            if j < i {
                assert(key_seen(lists, i, key));
            }
        }
        if key_seen(lists, i, key) {
            let j = choose|j: int| 0 <= j < i && has_key(#[trigger] lists[j], key);
            assert(has_key(lists[j], key));
        }
    }
}

/// What went wrong with a directive or with the resolved names.
pub enum Problem {
    /// The directive does not have the shape spelled by `expected`.
    Malformed { expected: String },
    /// The style name is not one of the known styles.
    UnknownStyle { style: String },
    /// A delimited style was chosen without a (non-empty) separator.
    MissingSeparator,
    /// A directive was given twice.
    DuplicateAttribute,
    /// A directive's name is not known.
    UnknownAttribute,
    /// A skip names no capability.
    UnknownSkip,
    /// Two lookup strings are equal.
    DuplicateValue { value: String },
    /// A variant of an enum that maps variants by attribute has no `#[not(...)]`.
    MissingNot,
}

/// One problem at one source location.
pub struct Diagnostic {
    pub problem: Problem,
    pub span: Span,
}

/// The text shown for a problem.
pub open spec fn problem_text(p: Problem) -> Seq<char> {
    match p {
        Problem::Malformed { expected } => "malformed attribute, expected #[fromtostr("@ + expected@
            + ")]"@,
        Problem::UnknownStyle { style } => style@ + " not an avaliable style!"@,
        Problem::MissingSeparator => "style = \"delimited\" needs a separator value"@,
        Problem::DuplicateAttribute => "duplicate attribute!"@,
        Problem::UnknownAttribute => "unknown attribute!"@,
        Problem::UnknownSkip => "not an avaliable skip!"@,
        Problem::DuplicateValue { value } => "duplicate value! both are ["@ + value@ + "]"@,
        Problem::MissingNot => "variant doesn't have an #[not] attribute!"@,
    }
}

impl Diagnostic {
    /// The message that goes with this diagnostic.
    pub fn message(&self) -> (r: String)
        ensures
            r@ == problem_text(self.problem),
    {
        let mut r = String::new();
        match &self.problem {
            Problem::Malformed { expected } => {
                push_string(&mut r, "malformed attribute, expected #[fromtostr(");
                push_string(&mut r, expected.as_str());
                push_string(&mut r, ")]");
            },
            Problem::UnknownStyle { style } => {
                push_string(&mut r, style.as_str());
                push_string(&mut r, " not an avaliable style!");
            },
            Problem::MissingSeparator => {
                push_string(&mut r, "style = \"delimited\" needs a separator value");
            },
            Problem::DuplicateAttribute => {
                push_string(&mut r, "duplicate attribute!");
            },
            Problem::UnknownAttribute => {
                push_string(&mut r, "unknown attribute!");
            },
            Problem::UnknownSkip => {
                push_string(&mut r, "not an avaliable skip!");
            },
            Problem::DuplicateValue { value } => {
                push_string(&mut r, "duplicate value! both are [");
                push_string(&mut r, value.as_str());
                push_string(&mut r, "]");
            },
            Problem::MissingNot => {
                push_string(&mut r, "variant doesn't have an #[not] attribute!");
            },
        }
        assert(r@ =~= problem_text(self.problem));
        r
    }
}

/// A list of diagnostics reported together.
pub struct Error {
    pub diagnostics: Vec<Diagnostic>,
}

impl Error {
    /// An error made of one diagnostic.
    pub open spec fn single(self, problem: Problem, span: Span) -> bool {
        self.diagnostics@ == seq![Diagnostic { problem, span }]
    }

    /// An error with `problem` at `span`.
    pub fn new(problem: Problem, span: Span) -> (r: Error)
        ensures
            r.single(problem, span),
    {
        let mut diagnostics = Vec::new();
        diagnostics.push(Diagnostic { problem, span });
        assert(diagnostics@ =~= seq![Diagnostic { problem, span }]);
        Error { diagnostics }
    }

    /// Whether this is a single malformed-directive error at `span`, naming
    /// `expected` as the shape the directive should have had.
    pub open spec fn is_malformed_at(self, span: Span, expected: Seq<char>) -> bool {
        &&& self.diagnostics@.len() == 1
        &&& self.diagnostics@[0].problem matches Problem::Malformed { expected: x } && x@ == expected
        &&& self.diagnostics@[0].span == span
    }

}

} // verus!
