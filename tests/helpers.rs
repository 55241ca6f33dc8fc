use fieldless_enum_tools_impl::directive::Problem;
use fieldless_enum_tools_impl::not::{get_with_attrs, not_shape, NotShape, NotVariant};
use fieldless_enum_tools_impl::utils::{has_enough_variants, join_docs, opt_as_deref, str_eq, SpannedString};
use proc_macro2::Span;

fn spanned(s: &str) -> SpannedString {
    SpannedString::new(s.to_string(), Span::call_site())
}

fn variant(name: &str, partner: Option<&str>) -> NotVariant {
    NotVariant { ident: spanned(name), span: Span::call_site(), partner: partner.map(spanned) }
}

#[test]
fn not_shapes() {
    assert_eq!(not_shape(0, false), None);
    assert_eq!(not_shape(1, true), Some(NotShape::Identity));
    assert_eq!(not_shape(2, false), Some(NotShape::Swap));
    assert_eq!(not_shape(2, true), Some(NotShape::ByAttribute));
    assert_eq!(not_shape(5, false), Some(NotShape::ByAttribute));
}

#[test]
fn not_pairs_may_be_asymmetric() {
    let vars = vec![
        variant("One", Some("OppositeOfOne")),
        variant("Two", Some("OppositeOfTwo")),
        variant("OppositeOfOne", Some("One")),
        variant("OppositeOfTwo", Some("Two")),
        variant("Trap", Some("Trap")),
    ];
    let pairs = get_with_attrs(vars).ok().unwrap();
    let got: Vec<(String, String)> =
        pairs.into_iter().map(|(a, b)| (a.string, b.string)).collect();
    assert_eq!(got[0], ("One".to_string(), "OppositeOfOne".to_string()));
    assert_eq!(got[4], ("Trap".to_string(), "Trap".to_string()));
    assert_eq!(got.len(), 5);
}

#[test]
fn not_pairs_need_every_attribute() {
    let vars = vec![variant("One", Some("Two")), variant("Two", None), variant("Three", None)];
    let e = get_with_attrs(vars).err().unwrap();
    assert_eq!(e.diagnostics.len(), 1);
    assert!(matches!(e.diagnostics[0].problem, Problem::MissingNot));
    assert_eq!(e.diagnostics[0].message(), "variant doesn't have an #[not] attribute!");
}

#[test]
fn docs_are_joined() {
    assert_eq!(join_docs(&vec![]), None);
    assert_eq!(join_docs(&vec!["a ".to_string(), "b".to_string()]), Some("a b".to_string()));
}

#[test]
fn option_deref() {
    assert_eq!(opt_as_deref(&Some("x".to_string())), Some("x"));
    assert_eq!(opt_as_deref(&None), None);
}

#[test]
fn string_equality() {
    assert!(str_eq("abc", "abc"));
    assert!(!str_eq("abc", "abd"));
    assert!(!str_eq("ab", "abc"));
    assert!(str_eq("", ""));
}

#[test]
fn variant_counts() {
    assert!(has_enough_variants(1, 1));
    assert!(has_enough_variants(3, 1));
    assert!(!has_enough_variants(0, 1));
}
