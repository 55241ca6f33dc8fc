use crate::directive::{Error, MetaList, NestedArg, Problem};
use crate::utils::{SpannedString, chars_of, push_char, push_string, str_eq};
use vstd::prelude::*;

verus! {

/// Whether `char::is_uppercase` holds of `c`.
pub uninterp spec fn is_upper_char(c: char) -> bool;

/// Whether `char::is_lowercase` holds of `c`.
pub uninterp spec fn is_lower_char(c: char) -> bool;

/// What `str::to_lowercase` returns on a string with these characters.
pub uninterp spec fn lower_of(s: Seq<char>) -> Seq<char>;

/// What `str::to_uppercase` returns on a string with these characters.
pub uninterp spec fn upper_of(s: Seq<char>) -> Seq<char>;

/// Relies on `char::is_uppercase` (the Unicode `Uppercase` property).
#[verifier::external_body]
fn is_upper(c: char) -> (r: bool)
    ensures
        r == is_upper_char(c),
{
    c.is_uppercase()
}

/// Relies on `char::is_lowercase` (the Unicode `Lowercase` property).
#[verifier::external_body]
fn is_lower(c: char) -> (r: bool)
    ensures
        r == is_lower_char(c),
{
    c.is_lowercase()
}

/// Relies on `str::to_lowercase`: the result depends on the characters alone,
/// and each character maps to one or more characters.
#[verifier::external_body]
fn lowercase(s: &str) -> (r: String)
    ensures
        r@ == lower_of(s@),
        s@.len() > 0 ==> r@.len() > 0,
{
    s.to_lowercase()
}

/// Relies on `str::to_uppercase`: the result depends on the characters alone,
/// and each character maps to one or more characters.
#[verifier::external_body]
fn uppercase(s: &str) -> (r: String)
    ensures
        r@ == upper_of(s@),
        s@.len() > 0 ==> r@.len() > 0,
{
    s.to_uppercase()
}

/// A word starts at position `i` of `s`: the character there is uppercase,
/// it is not the first one, and a lowercase character stands right after it
/// or right before it. A run of uppercase characters is thus one word.
pub open spec fn word_starts_at(s: Seq<char>, i: int) -> bool {
    &&& 0 < i < s.len()
    &&& is_upper_char(s[i])
    &&& ((i + 1 < s.len() && is_lower_char(s[i + 1])) || is_lower_char(s[i - 1]))
}

/// The character at position `i` of `s`, preceded by `sep` where a word starts.
pub open spec fn delimited_char(sep: Seq<char>, s: Seq<char>, i: int) -> Seq<char> {
    if word_starts_at(s, i) {
        sep.push(s[i])
    } else {
        seq![s[i]]
    }
}

/// The first `n` characters of `s`, with `sep` in front of every word but the first.
pub open spec fn delimited_prefix(sep: Seq<char>, s: Seq<char>, n: int) -> Seq<char>
    decreases n,
{
    if n <= 0 {
        seq![]
    } else {
        delimited_prefix(sep, s, n - 1) + delimited_char(sep, s, n - 1)
    }
}

/// `s` with `sep` inserted at every word boundary.
pub open spec fn delimited(sep: Seq<char>, s: Seq<char>) -> Seq<char> {
    delimited_prefix(sep, s, s.len() as int)
}

/// `s` with its first character lowercased and the rest left as it is.
pub open spec fn lower_first(s: Seq<char>) -> Seq<char> {
    if s.len() == 0 {
        s
    } else {
        lower_of(seq![s[0]]) + s.skip(1)
    }
}

/// What a [`FormatCase`] stands for, with its separator as a sequence.
pub enum Style {
    Unchanged,
    Lower,
    Upper,
    Camel,
    Delimited(Seq<char>),
    DelimitedLower(Seq<char>),
    DelimitedUpper(Seq<char>),
    Snake,
    ScreamingSnake,
    Kebab,
    ScreamingKebab,
    Train,
    PascalSnake,
    CamelSnake,
}

impl Style {
    /// The identifier `s` written in this style.
    pub open spec fn apply(self, s: Seq<char>) -> Seq<char> {
        match self {
            Style::Unchanged => s,
            Style::Lower => lower_of(s),
            Style::Upper => upper_of(s),
            Style::Camel => lower_first(s),
            Style::Delimited(sep) => delimited(sep, s),
            Style::DelimitedLower(sep) => lower_of(delimited(sep, s)),
            Style::DelimitedUpper(sep) => upper_of(delimited(sep, s)),
            Style::Train => delimited(seq!['-'], s),
            Style::PascalSnake => delimited(seq!['_'], s),
            Style::CamelSnake => lower_first(delimited(seq!['_'], s)),
            Style::Snake => lower_of(delimited(seq!['_'], s)),
            Style::Kebab => lower_of(delimited(seq!['-'], s)),
            Style::ScreamingSnake => upper_of(delimited(seq!['_'], s)),
            Style::ScreamingKebab => upper_of(delimited(seq!['-'], s)),
        }
    }
}

/// Whether the style called `name` writes words apart with a separator that
/// the user supplies.
pub open spec fn needs_separator(name: Seq<char>) -> bool {
    name == "delimited"@ || name == "delimitedlower"@ || name == "DELIMITEDUPPER"@
}

/// The style called `name`, with `sep` as its separator where it takes one.
pub open spec fn style_named(name: Seq<char>, sep: Seq<char>) -> Option<Style> {
    if name == "delimited"@ {
        Some(Style::Delimited(sep))
    } else if name == "delimitedlower"@ {
        Some(Style::DelimitedLower(sep))
    } else if name == "DELIMITEDUPPER"@ {
        Some(Style::DelimitedUpper(sep))
    } else if name == "none"@ {
        Some(Style::Unchanged)
    } else if name == "lower"@ {
        Some(Style::Lower)
    } else if name == "UPPER"@ {
        Some(Style::Upper)
    } else if name == "snake"@ {
        Some(Style::Snake)
    } else if name == "SCREAMING_SNAKE"@ {
        Some(Style::ScreamingSnake)
    } else if name == "kebab"@ {
        Some(Style::Kebab)
    } else if name == "SCREAMING-KEBAB"@ {
        Some(Style::ScreamingKebab)
    } else if name == "camel"@ {
        Some(Style::Camel)
    } else if name == "camel_Snake"@ {
        Some(Style::CamelSnake)
    } else if name == "Pascal_Snake"@ {
        Some(Style::PascalSnake)
    } else if name == "Train"@ {
        Some(Style::Train)
    } else {
        None
    }
}

/// The separator that was supplied, if any, as a sequence (empty when absent).
pub open spec fn separator_seq(sep: Option<String>) -> Seq<char> {
    match sep {
        Some(s) => s@,
        None => seq![],
    }
}

/// Whether a usable separator was supplied: present and not empty.
pub open spec fn has_separator(sep: Option<String>) -> bool {
    separator_seq(sep).len() > 0
}

/// Whether `a` has the shape `separator = "..."` or `style = "..."`.
pub open spec fn style_arg_ok(a: NestedArg) -> bool {
    match a {
        NestedArg::NameValue { key: Some(k), value: Some(_) } => k@ == "separator"@ || k@ == "style"@,
        _ => false,
    }
}

/// Whether every argument of a style directive has one of its two shapes.
pub open spec fn style_args_ok(args: Seq<NestedArg>) -> bool {
    forall|i: int| 0 <= i < args.len() ==> style_arg_ok(#[trigger] args[i])
}

/// The string of the last `key = "..."` argument among the first `n`.
pub open spec fn last_value(args: Seq<NestedArg>, key: Seq<char>, n: int) -> Option<SpannedString>
    decreases n,
{
    if n <= 0 {
        None
    } else {
        match args[n - 1] {
            NestedArg::NameValue { key: Some(k), value: Some(v) } => if k@ == key {
                Some(v)
            } else {
                last_value(args, key, n - 1)
            },
            _ => last_value(args, key, n - 1),
        }
    }
}

/// The `style = "..."` argument that counts: the last one.
pub open spec fn style_arg(args: Seq<NestedArg>) -> Option<SpannedString> {
    last_value(args, "style"@, args.len() as int)
}

/// The `separator = "..."` argument that counts: the last one.
pub open spec fn separator_arg(args: Seq<NestedArg>) -> Option<String> {
    match last_value(args, "separator"@, args.len() as int) {
        Some(v) => Some(v.string),
        None => None,
    }
}

/// The style that a directive's arguments select, if they select one.
pub open spec fn style_directive(args: Seq<NestedArg>) -> Option<Style> {
    if style_args_ok(args) && style_arg(args) is Some {
        let t = style_arg(args)->0.string@;
        let sep = separator_arg(args);
        if needs_separator(t) && !has_separator(sep) {
            None
        } else {
            style_named(t, separator_seq(sep))
        }
    } else {
        None
    }
}

/// The error that a style directive with these arguments gets, when it
/// selects no style.
pub open spec fn style_error(attr: MetaList, expected: Seq<char>, e: Error) -> bool {
    let args = attr.nested@;
    let t = style_arg(args)->0.string@;
    &&& e.diagnostics@.len() == 1
    &&& if !style_args_ok(args) || style_arg(args) is None {
        &&& e.diagnostics@[0].problem matches Problem::Malformed { expected: x } && x@ == expected
        &&& e.diagnostics@[0].span == attr.span
    } else if needs_separator(t) {
        &&& e.diagnostics@[0].problem is MissingSeparator
        &&& e.diagnostics@[0].span == attr.span
    } else {
        &&& e.diagnostics@[0].problem matches Problem::UnknownStyle { style } && style@ == t
        &&& e.diagnostics@[0].span == style_arg(args)->0.span
    }
}

/// A style in which an identifier can be written.
#[allow(dead_code)]
pub enum FormatCase {
    /// keep it as is
    Unchanged,
    /// "TwoWords" => "twowords"
    Lower,
    /// "TwoWords" => "TWOWORDS"
    Upper,
    /// "TwoWords" => "twoWords"
    Camel,
    /// "TwoWords" => "Two{separator}Words"
    Delimited { sep: String },
    /// "TwoWords" => "two{separator}words"
    DelimitedLower { sep: String },
    /// "TwoWords" => "TWO{separator}WORDS"
    DelimitedUpper { sep: String },
    /// "TwoWords" => "two_words"
    Snake,
    /// "TwoWords" => "TWO_WORDS"
    ScreamingSnake,
    /// "TwoWords" => "two-words"
    Kebab,
    /// "TwoWords" => "TWO-WORDS"
    ScreamingKebab,
    /// "TwoWords" => "Two-Words"
    Train,
    /// "TwoWords" => "Two_Words"
    PascalSnake,
    /// "TwoWords" => "two_Words"
    CamelSnake,
}

impl View for FormatCase {
    type V = Style;

    open spec fn view(&self) -> Style {
        match self {
            FormatCase::Unchanged => Style::Unchanged,
            FormatCase::Lower => Style::Lower,
            FormatCase::Upper => Style::Upper,
            FormatCase::Camel => Style::Camel,
            FormatCase::Delimited { sep } => Style::Delimited(sep@),
            FormatCase::DelimitedLower { sep } => Style::DelimitedLower(sep@),
            FormatCase::DelimitedUpper { sep } => Style::DelimitedUpper(sep@),
            FormatCase::Snake => Style::Snake,
            FormatCase::ScreamingSnake => Style::ScreamingSnake,
            FormatCase::Kebab => Style::Kebab,
            FormatCase::ScreamingKebab => Style::ScreamingKebab,
            FormatCase::Train => Style::Train,
            FormatCase::PascalSnake => Style::PascalSnake,
            FormatCase::CamelSnake => Style::CamelSnake,
        }
    }
}

impl FormatCase {
    /// The identifier `s` written in this style.
    pub open spec fn formatted(&self, s: Seq<char>) -> Seq<char> {
        self@.apply(s)
    }

    /// Reads a directive of the form `(style = "...", separator = "...")`,
    /// the separator being optional; `expected` spells that form in the
    /// error given when the arguments do not have it.
    pub fn from_attr(attr: &MetaList, expected: &str) -> (r: Result<Self, Error>)
        ensures
            style_directive(attr.nested@) matches Some(st) ==> r matches Ok(f) && f@ == st,
            style_directive(attr.nested@) is None ==> r is Err,
            r matches Err(e) ==> style_error(*attr, expected@, e),
    {
        proof {
            reveal_strlit("separator");
            reveal_strlit("style");
            assert("separator"@.len() != "style"@.len());
        }
        let ghost args = attr.nested@;
        let mut separator: Option<&SpannedString> = None;
        let mut style: Option<&SpannedString> = None;
        let mut i: usize = 0;
        while i < attr.nested.len()
            invariant
                args == attr.nested@,
                "separator"@ != "style"@,
                i <= args.len(),
                forall|j: int| 0 <= j < i ==> style_arg_ok(#[trigger] args[j]),
                separator is Some == last_value(args, "separator"@, i as int) is Some,
                separator is Some ==> *separator->0 == last_value(args, "separator"@, i as int)->0,
                style is Some == last_value(args, "style"@, i as int) is Some,
                style is Some ==> *style->0 == last_value(args, "style"@, i as int)->0,
            decreases args.len() - i,
        {
            match &attr.nested[i] {
                NestedArg::NameValue { key: Some(k), value: Some(v) } => {
                    if str_eq(k.as_str(), "separator") {
                        separator = Some(v);
                    } else if str_eq(k.as_str(), "style") {
                        style = Some(v);
                    } else {
                        return Err(Error::new(Problem::Malformed { expected: expected.to_owned() }, attr.span));
                    }
                },
                _ => {
                    return Err(Error::new(Problem::Malformed { expected: expected.to_owned() }, attr.span));
                },
            }
            i = i + 1;
        }
        let style = match style {
            Some(style) => style,
            None => {
                return Err(Error::new(Problem::Malformed { expected: expected.to_owned() }, attr.span));
            },
        };
        let separator = match separator {
            Some(sep) => Some(sep.string.clone()),
            None => None,
        };
        match Self::from_style_name(style.string.as_str(), separator) {
            Ok(f) => Ok(f),
            Err(Problem::MissingSeparator) => Err(Error::new(Problem::MissingSeparator, attr.span)),
            Err(p) => Err(Error::new(p, style.span)),
        }
    }

    /// The style called exactly `name`, given the separator that came with it. A delimited style without a non-empty
    /// separator is refused, as is a name that is no style.
    pub fn from_style_name(name: &str, separator: Option<String>) -> (r: Result<
        FormatCase,
        Problem,
    >)
        ensures
            ({
                let t = name@;
                match r {
                    Ok(f) => style_named(t, separator_seq(separator)) == Some(f@) && (needs_separator(t)
                        ==> has_separator(separator)),
                    Err(Problem::MissingSeparator) => needs_separator(t) && !has_separator(separator),
                    Err(Problem::UnknownStyle { style }) => style_named(t, separator_seq(separator))
                        is None && style@ == t,
                    Err(_) => false,
                }
            }),
    {
        let n = name;
        let style = if str_eq(n, "delimited") || str_eq(n, "delimitedlower") || str_eq(
            n,
            "DELIMITEDUPPER",
        ) {
            let sep = match separator {
                Some(sep) if !sep.as_str().is_empty() => sep,
                _ => return Err(Problem::MissingSeparator),
            };
            if str_eq(n, "delimited") {
                FormatCase::Delimited { sep }
            } else if str_eq(n, "delimitedlower") {
                FormatCase::DelimitedLower { sep }
            } else {
                FormatCase::DelimitedUpper { sep }
            }
        } else if str_eq(n, "none") {
            FormatCase::Unchanged
        } else if str_eq(n, "lower") {
            FormatCase::Lower
        } else if str_eq(n, "UPPER") {
            FormatCase::Upper
        } else if str_eq(n, "snake") {
            FormatCase::Snake
        } else if str_eq(n, "SCREAMING_SNAKE") {
            FormatCase::ScreamingSnake
        } else if str_eq(n, "kebab") {
            FormatCase::Kebab
        } else if str_eq(n, "SCREAMING-KEBAB") {
            FormatCase::ScreamingKebab
        } else if str_eq(n, "camel") {
            FormatCase::Camel
        } else if str_eq(n, "camel_Snake") {
            FormatCase::CamelSnake
        } else if str_eq(n, "Pascal_Snake") {
            FormatCase::PascalSnake
        } else if str_eq(n, "Train") {
            FormatCase::Train
        } else {
            return Err(Problem::UnknownStyle { style: name.to_owned() });
        };
        Ok(style)
    }

    /// The identifier `s` written in this style.
    pub fn format(&self, s: &str) -> (r: String)
        ensures
            r@ == self.formatted(s@),
            s@.len() > 0 ==> r@.len() > 0,
    {
        proof {
            reveal_strlit("-");
            reveal_strlit("_");
            assert("-"@ =~= seq!['-']);
            assert("_"@ =~= seq!['_']);
        }
        match self {
            FormatCase::Unchanged => s.to_owned(),
            FormatCase::Lower => lowercase(s),
            FormatCase::Upper => uppercase(s),
            FormatCase::Camel => Self::lowercase_first(s),
            FormatCase::Delimited { sep } => Self::delimit(sep.as_str(), s),
            FormatCase::DelimitedLower { sep } => lowercase(Self::delimit(sep.as_str(), s).as_str()),
            FormatCase::DelimitedUpper { sep } => uppercase(Self::delimit(sep.as_str(), s).as_str()),
            FormatCase::Train => Self::delimit("-", s),
            FormatCase::PascalSnake => Self::delimit("_", s),
            FormatCase::CamelSnake => Self::lowercase_first(Self::delimit("_", s).as_str()),
            FormatCase::Snake => lowercase(Self::delimit("_", s).as_str()),
            FormatCase::Kebab => lowercase(Self::delimit("-", s).as_str()),
            FormatCase::ScreamingSnake => uppercase(Self::delimit("_", s).as_str()),
            FormatCase::ScreamingKebab => uppercase(Self::delimit("-", s).as_str()),
        }
    }

    /// `s` with its first character lowercased.
    fn lowercase_first(s: &str) -> (r: String)
        ensures
            r@ == lower_first(s@),
            s@.len() > 0 ==> r@.len() > 0,
    {
        let chars = chars_of(s);
        if chars.len() == 0 {
            return String::new();
        }
        let mut first = String::new();
        push_char(&mut first, chars[0]);
        let mut r = lowercase(first.as_str());
        assert(first@ =~= seq![s@[0]]);
        let mut i: usize = 1;
        while i < chars.len()
            invariant
                chars@ == s@,
                1 <= i <= chars@.len(),
                r@ == lower_of(seq![s@[0]]) + s@.subrange(1, i as int),
            decreases chars@.len() - i,
        {
            push_char(&mut r, chars[i]);
            assert(s@.subrange(1, i as int).push(s@[i as int]) =~= s@.subrange(1, i + 1));
            i = i + 1;
        }
        assert(s@.subrange(1, i as int) =~= s@.skip(1));
        r
    }

    /// `s` with `sep` in front of every word but the first.
    pub fn delimit(sep: &str, s: &str) -> (r: String)
        ensures
            r@ == delimited(sep@, s@),
            r@.len() >= s@.len(),
    {
        let chars = chars_of(s);
        let mut string = String::new();
        let mut i: usize = 0;
        while i < chars.len()
            invariant
                chars@ == s@,
                i <= chars@.len(),
                string@ == delimited_prefix(sep@, s@, i as int),
                string@.len() >= i,
            decreases chars@.len() - i,
        {
            let ch = chars[i];
            let starts = i > 0 && is_upper(ch) && ((i + 1 < chars.len() && is_lower(chars[i + 1]))
                || is_lower(chars[i - 1]));
            if starts {
                push_string(&mut string, sep);
            }
            push_char(&mut string, ch);
            assert(string@ =~= delimited_prefix(sep@, s@, i + 1));
            i = i + 1;
        }
        string
    }
}

/// The style that keeps identifiers as they are writes every identifier as it is.
pub proof fn lemma_unchanged_is_identity(s: Seq<char>)
    ensures
        FormatCase::Unchanged.formatted(s) == s,
{
}

/// A delimited style selected without a separator is refused, with a
/// missing-separator error at the directive.
pub proof fn lemma_delimited_needs_separator(attr: MetaList, expected: Seq<char>, e: Error)
    requires
        style_args_ok(attr.nested@),
        style_arg(attr.nested@) is Some,
        needs_separator(style_arg(attr.nested@)->0.string@),
        separator_arg(attr.nested@) is None,
        style_error(attr, expected, e),
    ensures
        style_directive(attr.nested@) is None,
        e.diagnostics@.len() == 1,
        e.diagnostics@[0].problem is MissingSeparator,
        e.diagnostics@[0].span == attr.span,
{
}

} // verus!
