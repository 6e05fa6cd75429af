use dom_core::CaseSensitivity;
use dom_core::attributes::Attributes;
use dom_core::names::{Attribute, ExpandedName};

fn attr(value: &str) -> Attribute {
    Attribute { prefix: None, value: value.to_string() }
}

fn store(pairs: &[(&str, &str)]) -> Attributes {
    let v: Vec<(ExpandedName, Attribute)> = pairs
        .iter()
        .map(|(k, val)| (ExpandedName::new("", k), attr(val)))
        .collect();
    Attributes::new(v)
}

#[test]
fn class_store_example() {
    let a = store(&[("class", "a b c")]);
    assert!(a.has_class("b", CaseSensitivity::CaseSensitive));
    assert!(!a.has_class("d", CaseSensitivity::CaseSensitive));
    assert!(a.has_class("B", CaseSensitivity::AsciiCaseInsensitive));
}

#[test]
fn single_class_exact_comparison() {
    let a = store(&[("class", "foo")]);
    assert!(a.has_class("foo", CaseSensitivity::CaseSensitive));
    assert!(!a.has_class("fo", CaseSensitivity::CaseSensitive));
    assert!(!a.has_class("FOO", CaseSensitivity::CaseSensitive));
    assert!(a.has_class("FOO", CaseSensitivity::AsciiCaseInsensitive));
    assert!(!a.has_class("foox", CaseSensitivity::AsciiCaseInsensitive));
}

#[test]
fn single_class_with_padding_compares_whole_value() {
    // "a " trims to a single token, so the query compares the whole value
    let a = store(&[("class", "a ")]);
    assert!(!a.has_class("a", CaseSensitivity::CaseSensitive));
    assert!(a.has_class("a ", CaseSensitivity::CaseSensitive));
}

#[test]
fn multi_token_membership() {
    let a = store(&[("class", "alpha beta gamma")]);
    assert!(a.has_class("alpha", CaseSensitivity::CaseSensitive));
    assert!(a.has_class("beta", CaseSensitivity::CaseSensitive));
    assert!(a.has_class("gamma", CaseSensitivity::CaseSensitive));
    assert!(!a.has_class("alph", CaseSensitivity::CaseSensitive));
    assert!(!a.has_class("ALPHA", CaseSensitivity::CaseSensitive));
    assert!(a.has_class("ALPHA", CaseSensitivity::AsciiCaseInsensitive));
    assert!(!a.has_class("delta", CaseSensitivity::AsciiCaseInsensitive));
}

#[test]
fn multi_token_odd_whitespace() {
    let a = store(&[("class", "  x\t\ny \r\x0C z  ")]);
    assert!(a.has_class("x", CaseSensitivity::CaseSensitive));
    assert!(a.has_class("y", CaseSensitivity::CaseSensitive));
    assert!(a.has_class("z", CaseSensitivity::CaseSensitive));
    assert!(!a.has_class("", CaseSensitivity::CaseSensitive));
    assert!(!a.has_class("x y", CaseSensitivity::CaseSensitive));
}

#[test]
fn no_class_attribute_queries_false() {
    let a = store(&[("id", "main")]);
    assert!(!a.has_class("main", CaseSensitivity::CaseSensitive));
    assert!(!a.has_class("", CaseSensitivity::AsciiCaseInsensitive));
}

#[test]
fn remove_class_then_query_false() {
    let mut a = store(&[("class", "a b c"), ("id", "main")]);
    assert!(a.has_class("a", CaseSensitivity::CaseSensitive));
    let removed = a.remove("class");
    assert_eq!(removed.unwrap().value, "a b c");
    assert!(!a.has_class("a", CaseSensitivity::CaseSensitive));
    assert!(!a.has_class("b", CaseSensitivity::AsciiCaseInsensitive));
    assert!(!a.contains("class"));
    assert!(a.contains("id"));
}

#[test]
fn insert_updates_class_index() {
    let mut a = store(&[("class", "one")]);
    assert!(a.has_class("one", CaseSensitivity::CaseSensitive));
    let old = a.insert("class", "two three".to_string());
    assert_eq!(old.unwrap().value, "one");
    assert!(!a.has_class("one", CaseSensitivity::CaseSensitive));
    assert!(a.has_class("two", CaseSensitivity::CaseSensitive));
    assert!(a.has_class("three", CaseSensitivity::CaseSensitive));
}

#[test]
fn insert_new_class_on_store_without_one() {
    let mut a = store(&[("id", "x")]);
    assert_eq!(a.insert("class", "fresh".to_string()).map(|at| at.value), None);
    assert!(a.has_class("fresh", CaseSensitivity::CaseSensitive));
}

#[test]
fn get_and_contains() {
    let a = store(&[("id", "main"), ("class", "a")]);
    assert_eq!(a.get("id"), Some("main"));
    assert_eq!(a.get("class"), Some("a"));
    assert_eq!(a.get("missing"), None);
    assert!(a.contains("id"));
    assert!(!a.contains("missing"));
}

#[test]
fn insert_replaces_value_and_returns_old() {
    let mut a = store(&[("id", "main")]);
    let old = a.insert("id", "other".to_string());
    assert_eq!(old.unwrap().value, "main");
    assert_eq!(a.get("id"), Some("other"));
    let fresh = a.insert("title", "t".to_string());
    assert!(fresh.is_none());
}

#[test]
fn remove_missing_returns_none() {
    let mut a = store(&[("id", "main")]);
    assert!(a.remove("class").is_none());
    assert_eq!(a.get("id"), Some("main"));
}

#[test]
fn duplicate_keys_last_value_wins() {
    let a = store(&[("id", "first"), ("id", "second")]);
    assert_eq!(a.get("id"), Some("second"));
}

#[test]
fn store_equality_ignores_order_and_prefix() {
    let a = store(&[("id", "main"), ("class", "a")]);
    let b = store(&[("class", "a"), ("id", "main")]);
    assert!(a == b);
    let mut with_prefix = vec![
        (ExpandedName::new("", "id"), Attribute { prefix: Some("p".to_string()), value: "main".to_string() }),
        (ExpandedName::new("", "class"), attr("a")),
    ];
    let c = Attributes::new(with_prefix.drain(..).collect());
    assert!(a == c);
    let d = store(&[("id", "other"), ("class", "a")]);
    assert!(a != d);
    let e = store(&[("id", "main")]);
    assert!(a != e);
}

#[test]
fn namespaced_keys_are_distinct() {
    let v = vec![
        (ExpandedName::new("http://www.w3.org/XML/1998/namespace", "lang"), attr("en")),
        (ExpandedName::new("", "lang"), attr("de")),
    ];
    let a = Attributes::new(v);
    // null-namespace lookup sees only the null-namespace entry
    assert_eq!(a.get("lang"), Some("de"));
}

#[test]
fn bloom_path_positive_and_negative() {
    // many tokens, so the Bloom pre-check path is taken under exact matching
    let a = store(&[("class", "t0 t1 t2 t3 t4 t5 t6 t7 t8 t9")]);
    for i in 0..10 {
        assert!(a.has_class(&format!("t{}", i), CaseSensitivity::CaseSensitive));
    }
    assert!(!a.has_class("t10", CaseSensitivity::CaseSensitive));
    assert!(!a.has_class("u0", CaseSensitivity::CaseSensitive));
}
