use xtag::{csl_to_map, rename, XTags};

fn test(key: &str, value: &str, from: &str, to: &str, end_key: &str) {
    let mut map = XTags::new();
    map.insert(key.to_string(), Some(value.to_string()));
    let map = rename(from, to, map).unwrap();
    assert_eq!(map.len(), 1);
    let element = &map.entries()[0];
    assert_eq!(element.0, end_key);
    assert_eq!(element.1, Some(value.to_string()));
}

#[test]
fn rename_supports_plain_text() {
    test("from", "value", "from", "to", "to");
}

#[test]
fn rename_supports_regex() {
    test("from", "value", "f(.)om", "to$1", "tor");
}

#[test]
fn rename_supports_named_capture_groups() {
    test("from", "value", "f(?P<a>.)om", "to$a", "tor");
}

#[test]
fn grammar_tags_support_spaces() {
    let result = csl_to_map("a , b = c");
    assert!(result.is_ok());
}
