use fieldless_enum_tools_impl::directive::{Diagnostic, Error, MetaList, NestedArg, Problem};
use fieldless_enum_tools_impl::format_case::FormatCase;
use fieldless_enum_tools_impl::from_to_str::{check_if_duplicate, lookup, FormattedVariant, Impl};
use fieldless_enum_tools_impl::inner::{Aliases, Attrs as InnerAttrs, Rename};
use fieldless_enum_tools_impl::outer::{Attrs as OuterAttrs, Format, Skip};
use fieldless_enum_tools_impl::utils::SpannedString;
use proc_macro2::Span;

fn spanned(s: &str) -> SpannedString {
    SpannedString::new(s.to_string(), Span::call_site())
}

fn name_value(key: &str, value: &str) -> NestedArg {
    NestedArg::NameValue { key: Some(key.to_string()), value: Some(spanned(value)) }
}

fn list(path: &str, nested: Vec<NestedArg>) -> MetaList {
    MetaList { path: Some(path.to_string()), nested, span: Span::call_site() }
}

fn no_attrs() -> InnerAttrs {
    InnerAttrs { aliases: None, rename: None }
}

fn one_problem(e: &Error) -> &Problem {
    assert_eq!(e.diagnostics.len(), 1);
    &e.diagnostics[0].problem
}

fn strings(v: &FormattedVariant) -> Vec<String> {
    v.iter().into_iter().map(|s| s.string.clone()).collect()
}

#[test]
fn identifier_kept_without_directives() {
    let outer = OuterAttrs { format: None, skip: None };
    let v = FormattedVariant::new(spanned("CoolVariant"), no_attrs(), &outer);
    assert_eq!(v.formatted.string, "CoolVariant");
    assert_eq!(v.original.string, "CoolVariant");
    assert!(v.aliases.is_empty());
}

#[test]
fn type_default_style_applies() {
    let outer = OuterAttrs { format: Some(Format(FormatCase::Kebab)), skip: None };
    let v = FormattedVariant::new(spanned("CoolVariant"), no_attrs(), &outer);
    assert_eq!(v.formatted.string, "cool-variant");
}

#[test]
fn own_style_beats_type_default() {
    let outer = OuterAttrs { format: Some(Format(FormatCase::ScreamingSnake)), skip: None };
    let inner = InnerAttrs { aliases: None, rename: Some(Rename::Format(FormatCase::Train)) };
    let v = FormattedVariant::new(spanned("TwoWords"), inner, &outer);
    assert_eq!(v.formatted.string, "Two-Words");
}

#[test]
fn literal_rename_beats_everything() {
    let outer = OuterAttrs { format: Some(Format(FormatCase::Snake)), skip: None };
    let inner = InnerAttrs {
        aliases: Some(Aliases(vec![spanned("Alias")])),
        rename: Some(Rename::Renamed(spanned("Literal"))),
    };
    let v = FormattedVariant::new(spanned("TwoWords"), inner, &outer);
    assert_eq!(v.formatted.string, "Literal");
    assert_eq!(strings(&v), vec!["Alias".to_string(), "Literal".to_string()]);
}

#[test]
fn two_equal_names_give_one_pair() {
    let outer = OuterAttrs { format: Some(Format(FormatCase::Lower)), skip: None };
    let table = vec![
        FormattedVariant::new(spanned("AB"), no_attrs(), &outer),
        FormattedVariant::new(spanned("Ab"), no_attrs(), &outer),
    ];
    let e = check_if_duplicate(&table).err().unwrap();
    assert_eq!(e.diagnostics.len(), 2);
    for d in &e.diagnostics {
        match &d.problem {
            Problem::DuplicateValue { value } => assert_eq!(value, "ab"),
            _ => panic!("expected a duplicate"),
        }
        assert_eq!(d.message(), "duplicate value! both are [ab]");
    }
}

#[test]
fn three_equal_names_give_two_pairs() {
    let outer = OuterAttrs { format: None, skip: None };
    let renamed = |s: &str| InnerAttrs { aliases: None, rename: Some(Rename::Renamed(spanned(s))) };
    let table = vec![
        FormattedVariant::new(spanned("A"), renamed("x"), &outer),
        FormattedVariant::new(spanned("B"), renamed("x"), &outer),
        FormattedVariant::new(spanned("C"), renamed("x"), &outer),
    ];
    let e = check_if_duplicate(&table).err().unwrap();
    assert_eq!(e.diagnostics.len(), 4);
}

#[test]
fn alias_clashing_with_other_name() {
    let outer = OuterAttrs { format: None, skip: None };
    let with_alias = InnerAttrs { aliases: Some(Aliases(vec![spanned("Two")])), rename: None };
    let table = vec![
        FormattedVariant::new(spanned("One"), with_alias, &outer),
        FormattedVariant::new(spanned("Two"), no_attrs(), &outer),
    ];
    let e = check_if_duplicate(&table).err().unwrap();
    assert_eq!(e.diagnostics.len(), 2);
}

#[test]
fn distinct_names_pass() {
    let outer = OuterAttrs { format: None, skip: None };
    let table = vec![
        FormattedVariant::new(spanned("One"), no_attrs(), &outer),
        FormattedVariant::new(spanned("Two"), no_attrs(), &outer),
    ];
    assert!(check_if_duplicate(&table).is_ok());
    assert!(check_if_duplicate(&[]).is_ok());
}

#[test]
fn every_name_looks_up_its_variant() {
    let outer = OuterAttrs { format: Some(Format(FormatCase::Snake)), skip: None };
    let table = vec![
        FormattedVariant::new(
            spanned("FirstOne"),
            InnerAttrs { aliases: Some(Aliases(vec![spanned("f1"), spanned("first")])), rename: None },
            &outer,
        ),
        FormattedVariant::new(spanned("SecondOne"), no_attrs(), &outer),
    ];
    assert!(check_if_duplicate(&table).is_ok());
    for (k, v) in table.iter().enumerate() {
        for s in strings(v) {
            assert_eq!(lookup(&table, &s), Some(k));
        }
    }
    assert_eq!(lookup(&table, "FirstOne"), None);
}

#[test]
fn delimited_lower_scenario() {
    let outer = OuterAttrs::from_attrs(vec![list(
        "format",
        vec![name_value("style", "delimitedlower"), name_value("separator", "::")],
    )])
    .ok()
    .unwrap();
    let one = InnerAttrs::from_attrs(vec![list("aliases", vec![NestedArg::Str(spanned("v1"))])])
        .ok()
        .unwrap();
    let table = vec![
        FormattedVariant::new(spanned("VariantOne"), one, &outer),
        FormattedVariant::new(spanned("VariantTwo"), no_attrs(), &outer),
    ];
    assert_eq!(table[0].formatted.string, "variant::one");
    assert_eq!(table[1].formatted.string, "variant::two");
    assert!(check_if_duplicate(&table).is_ok());
    assert_eq!(lookup(&table, "v1"), Some(0));
    assert_eq!(lookup(&table, "variant::one"), Some(0));
    assert_eq!(lookup(&table, "variant::two"), Some(1));
    assert_eq!(lookup(&table, "VariantOne"), None);
}

#[test]
fn literal_rename_scenario() {
    let outer = OuterAttrs::from_attrs(vec![list(
        "format",
        vec![name_value("style", "delimited"), name_value("separator", "😎")],
    )])
    .ok()
    .unwrap();
    let two = InnerAttrs::from_attrs(vec![list(
        "rename",
        vec![NestedArg::Str(spanned("Very😎Cool😎Variant😎Two"))],
    )])
    .ok()
    .unwrap();
    let one = InnerAttrs::from_attrs(vec![list(
        "aliases",
        vec![NestedArg::Str(spanned("cool_variant_one"))],
    )])
    .ok()
    .unwrap();
    let table = vec![
        FormattedVariant::new(spanned("CoolVariantOne"), one, &outer),
        FormattedVariant::new(spanned("CoolVariantTwo"), two, &outer),
    ];
    assert_eq!(table[0].formatted.string, "Cool😎Variant😎One");
    assert_eq!(table[1].formatted.string, "Very😎Cool😎Variant😎Two");
    assert_eq!(lookup(&table, "Very😎Cool😎Variant😎Two"), Some(1));
    assert_eq!(lookup(&table, "Cool😎Variant😎Two"), None);
    assert_eq!(lookup(&table, "cool_variant_one"), Some(0));
}

#[test]
fn rename_directive_forms() {
    let by_style = Rename::from_attr(list("rename", vec![name_value("style", "kebab")])).ok().unwrap();
    assert!(matches!(by_style, Rename::Format(FormatCase::Kebab)));
    let literal = Rename::from_attr(list("rename", vec![NestedArg::Str(spanned("x"))])).ok().unwrap();
    match literal {
        Rename::Renamed(s) => assert_eq!(s.string, "x"),
        _ => panic!("expected a literal rename"),
    }
    let two = Rename::from_attr(list(
        "rename",
        vec![NestedArg::Str(spanned("x")), NestedArg::Str(spanned("y"))],
    ));
    let e = two.err().unwrap();
    assert!(matches!(one_problem(&e), Problem::Malformed { .. }));
    assert_eq!(
        e.diagnostics[0].message(),
        "malformed attribute, expected #[fromtostr(rename(\"...\") or rename(style = \"...\"))]"
    );
    let empty = Rename::from_attr(list("rename", vec![]));
    assert!(matches!(one_problem(&empty.err().unwrap()), Problem::Malformed { .. }));
    let empty_literal = Rename::from_attr(list("rename", vec![NestedArg::Str(spanned(""))]));
    assert!(matches!(one_problem(&empty_literal.err().unwrap()), Problem::Malformed { .. }));
}

#[test]
fn rename_style_keeps_its_error() {
    for name in ["delimited", "delimitedlower", "DELIMITEDUPPER"] {
        let e = Rename::from_attr(list("rename", vec![name_value("style", name)])).err().unwrap();
        assert!(matches!(one_problem(&e), Problem::MissingSeparator));
        assert_eq!(e.diagnostics[0].message(), "style = \"delimited\" needs a separator value");
    }
    let e = Rename::from_attr(list("rename", vec![name_value("style", "PascalCase")])).err().unwrap();
    assert_eq!(e.diagnostics[0].message(), "PascalCase not an avaliable style!");
    let ok = Rename::from_attr(list(
        "rename",
        vec![name_value("style", "delimited"), name_value("separator", "+")],
    ))
    .ok()
    .unwrap();
    match ok {
        Rename::Format(f) => assert_eq!(f.format("TwoWords"), "Two+Words"),
        _ => panic!("expected a style"),
    }
}

#[test]
fn aliases_directive_forms() {
    let a = Aliases::from_attr(list(
        "aliases",
        vec![NestedArg::Str(spanned("a")), NestedArg::Str(spanned("b"))],
    ))
    .ok()
    .unwrap();
    let got: Vec<String> = a.0.iter().map(|s| s.string.clone()).collect();
    assert_eq!(got, vec!["a".to_string(), "b".to_string()]);
    let empty = Aliases::from_attr(list("aliases", vec![]));
    assert!(matches!(one_problem(&empty.err().unwrap()), Problem::Malformed { .. }));
    let bad = Aliases::from_attr(list("aliases", vec![NestedArg::Str(spanned("a")), NestedArg::Other]));
    assert!(matches!(one_problem(&bad.err().unwrap()), Problem::Malformed { .. }));
    let empty_literal =
        Aliases::from_attr(list("aliases", vec![NestedArg::Str(spanned("a")), NestedArg::Str(spanned(""))]));
    let e = empty_literal.err().unwrap();
    assert_eq!(e.diagnostics[0].message(), "malformed attribute, expected #[fromtostr(aliases(\"...\",*))]");
}

#[test]
fn style_directive_errors() {
    let missing = FormatCase::from_attr(&list("format", vec![name_value("style", "delimited")]), "x");
    let e = missing.err().unwrap();
    assert!(matches!(one_problem(&e), Problem::MissingSeparator));
    assert_eq!(e.diagnostics[0].message(), "style = \"delimited\" needs a separator value");
    let unknown = FormatCase::from_attr(&list("format", vec![name_value("style", "nope")]), "x");
    let e = unknown.err().unwrap();
    assert_eq!(e.diagnostics[0].message(), "nope not an avaliable style!");
    let no_style = FormatCase::from_attr(&list("format", vec![name_value("separator", "-")]), "x");
    assert!(matches!(one_problem(&no_style.err().unwrap()), Problem::Malformed { .. }));
    let other_key = FormatCase::from_attr(&list("format", vec![name_value("colour", "red")]), "x");
    assert!(matches!(one_problem(&other_key.err().unwrap()), Problem::Malformed { .. }));
    let last_wins = FormatCase::from_attr(
        &list("format", vec![name_value("style", "nope"), name_value("style", "lower")]),
        "x",
    );
    assert!(matches!(last_wins.ok().unwrap(), FormatCase::Lower));
}

#[test]
fn variant_directive_errors() {
    let dup = InnerAttrs::from_attrs(vec![
        list("rename", vec![NestedArg::Str(spanned("a"))]),
        list("rename", vec![NestedArg::Str(spanned("b"))]),
    ]);
    let e = dup.err().unwrap();
    assert!(matches!(one_problem(&e), Problem::DuplicateAttribute));
    assert_eq!(e.diagnostics[0].message(), "duplicate attribute!");
    let unknown = InnerAttrs::from_attrs(vec![list("format", vec![])]);
    let e = unknown.err().unwrap();
    assert!(matches!(one_problem(&e), Problem::UnknownAttribute));
    assert_eq!(e.diagnostics[0].message(), "unknown attribute!");
    let both = InnerAttrs::from_attrs(vec![
        list("aliases", vec![NestedArg::Str(spanned("a"))]),
        list("rename", vec![name_value("style", "UPPER")]),
    ])
    .ok()
    .unwrap();
    assert!(matches!(both.rename, Some(Rename::Format(FormatCase::Upper))));
    assert_eq!(both.aliases.unwrap().0.len(), 1);
}

#[test]
fn type_directive_errors() {
    let dup = OuterAttrs::from_attrs(vec![
        list("skip", vec![]),
        list("skip", vec![]),
    ]);
    assert!(matches!(one_problem(&dup.err().unwrap()), Problem::DuplicateAttribute));
    let unknown = OuterAttrs::from_attrs(vec![list("rename", vec![])]);
    assert!(matches!(one_problem(&unknown.err().unwrap()), Problem::UnknownAttribute));
    let bad_style = OuterAttrs::from_attrs(vec![list("format", vec![NestedArg::Other])]);
    let e = bad_style.err().unwrap();
    assert_eq!(
        e.diagnostics[0].message(),
        "malformed attribute, expected #[fromtostr(format(style = \"...\"))]"
    );
}

#[test]
fn skip_selects_capabilities() {
    let path = |s: &str| NestedArg::Path { ident: Some(spanned(s)) };
    let outer = OuterAttrs::from_attrs(vec![list("skip", vec![path("Display"), path("Serialize")])])
        .ok()
        .unwrap();
    assert!(outer.should_skip(Impl::Display));
    assert!(!outer.should_skip(Impl::FromStr));
    assert_eq!(
        outer.selected_impls(),
        vec![Impl::AsRefStr, Impl::IntoString, Impl::FromStr, Impl::TryFromString, Impl::Deserialize]
    );
    let none = OuterAttrs { format: None, skip: None };
    assert_eq!(none.selected_impls(), Impl::default().to_vec());
    let e = Skip::from_attr(list("skip", vec![path("Debug")])).err().unwrap();
    assert!(matches!(one_problem(&e), Problem::UnknownSkip));
    assert_eq!(e.diagnostics[0].message(), "not an avaliable skip!");
    let e = Skip::from_attr(list("skip", vec![NestedArg::Path { ident: None }])).err().unwrap();
    assert!(matches!(one_problem(&e), Problem::Malformed { .. }));
}

#[test]
fn diagnostic_messages() {
    let d = Diagnostic { problem: Problem::UnknownStyle { style: "x".to_string() }, span: Span::call_site() };
    assert_eq!(d.message(), "x not an avaliable style!");
}
