use xtag::{
    compile_search, compile_search_with, csl_to_map, expand_regex, map_to_csl, rename, XTagError,
    XTags,
};

fn matches(term: &str, tags: &str) -> bool {
    let tags = csl_to_map(tags).unwrap();
    compile_search(term).unwrap().is_match(&tags)
}

const MAPS: [&str; 9] = ["", "a", "b", "c", "a,b", "c,d", "a,c", "b,d", "a,b,c,d"];

#[test]
fn or_binds_looser_than_and() {
    assert!(matches("a AND b OR c AND d", "a,b"));
    assert!(matches("a AND b OR c AND d", "c,d"));
    assert!(!matches("a AND b OR c AND d", "a"));
}

#[test]
fn not_binds_tighter_than_and() {
    assert!(matches("NOT a AND b", "b"));
    assert!(!matches("NOT a AND b", "a,b"));
}

#[test]
fn existence_is_case_sensitive() {
    assert!(!matches("a", "A"));
    assert!(matches("a", "a"));
    assert!(matches("A", "A"));
}

#[test]
fn operator_spellings_are_interchangeable() {
    for tags in MAPS {
        let expected = matches("a AND b OR c AND d", tags);
        assert_eq!(matches("a && b || c AND d", tags), expected, "{tags}");
        assert_eq!(matches("a and b or c and d", tags), expected, "{tags}");
        assert_eq!(matches("a&&b||c&&d", tags), expected, "{tags}");
    }
    for tags in MAPS {
        assert_eq!(matches("NOT a", tags), matches("!a", tags));
        assert_eq!(matches("not a", tags), matches("!a", tags));
    }
}

#[test]
fn whitespace_around_operators_is_optional() {
    assert!(!matches("(aANDb)ORc", "a,b"));
    assert!(matches("(a AND b) OR c", "a,b"));
    for tags in MAPS {
        let expected = matches("(a AND b) OR c", tags);
        assert_eq!(matches("(a AND b)OR c", tags), expected, "{tags}");
        assert_eq!(matches("  (  a   AND  b )    OR   c  ", tags), expected, "{tags}");
    }
}

#[test]
fn equality_matches_values_by_regex() {
    assert!(matches("a == 1 or a == 2", "a=1"));
    assert!(!matches("a == 1 or a == 2", "a=3"));
    assert!(matches("a == [0-9]+", "a=42"));
    assert!(!matches("a == [0-9]+", "a=4x2"));
}

#[test]
fn equality_passes_over_tags_without_value() {
    assert!(!matches("a == .*", "a"));
    assert!(matches("a == .*", "a=x"));
}

#[test]
fn inequality_holds_when_no_tag_matches() {
    assert!(matches("x != 1", "a=1"));
    assert!(matches("x != 1", ""));
    assert!(!matches("a != 1", "a=1"));
    assert!(matches("a != 1", "a=2"));
}

#[test]
fn numeric_comparison_ignores_non_numeric_values() {
    let mut tags = XTags::new();
    tags.insert("a".to_string(), Some("not-a-number".to_string()));
    let searcher = compile_search("a > 1 AND a < 3").unwrap();
    assert!(!searcher.is_match(&tags));
    assert!(!compile_search("a < 3").unwrap().is_match(&tags));
    assert!(compile_search("NOT a < 3").unwrap().is_match(&tags));
}

#[test]
fn numeric_comparison_is_existential() {
    assert!(matches("a. > 5", "a1=1,a2=9"));
    assert!(!matches("a. > 5", "a1=1,a2=5"));
    assert!(matches("a. <= 1", "a1=1,a2=5"));
    assert!(matches("a. >= 5", "a1=x,a2=5"));
}

#[test]
fn numeric_comparison_reads_signed_integers() {
    assert!(matches("a >= -5", "a=-5"));
    assert!(!matches("a < -5", "a=-5"));
    assert!(matches("a > 2", "a=+3"));
    assert!(!matches("a > 2", "a=99999999999"));
}

#[test]
fn comparison_bound_must_be_an_integer() {
    assert!(matches!(compile_search("a < x"), Err(XTagError::IntParse(t)) if t == "x"));
    assert!(matches!(
        compile_search("a >= 99999999999"),
        Err(XTagError::IntParse(t)) if t == "99999999999"
    ));
}

#[test]
fn invalid_pattern_is_reported() {
    assert!(matches!(compile_search("x(?z)"), Err(XTagError::Regex(p)) if p == "^x(?z)$"));
    assert!(matches!(compile_search("a == x(?z)"), Err(XTagError::Regex(p)) if p == "^x(?z)$"));
}

#[test]
fn syntax_error_carries_position() {
    assert!(matches!(compile_search("a b c"), Err(XTagError::Parser(2))));
    assert!(matches!(compile_search(""), Err(XTagError::Parser(0))));
    assert!(matches!(compile_search("a AND"), Err(XTagError::Parser(2))));
    assert!(matches!(compile_search("(a"), Err(XTagError::Parser(0))));
}

#[test]
fn canonical_text() {
    let s = compile_search("a or b and c").unwrap();
    assert_eq!(s.to_string(), "(^a$) OR ((^b$) AND (^c$))");
    let s = compile_search("a != b").unwrap();
    assert_eq!(s.to_string(), "NOT (^a$ == ^b$)");
    let s = compile_search("!a < -7 && b >= 10").unwrap();
    assert_eq!(s.to_string(), "(NOT (^a$ < -7)) AND (^b$ >= 10)");
    let s = compile_search("a <= 1 || a > 2").unwrap();
    assert_eq!(s.to_string(), "(^a$ <= 1) OR (^a$ > 2)");
}

#[test]
fn printing_is_a_fixed_point() {
    for term in ["a or b and c", "(a or b) and c", "a or (b and c)", "!a == b+ && c < 3"] {
        let first = compile_search(term).unwrap().to_string();
        let second = compile_search(&first).unwrap().to_string();
        assert_eq!(first, second);
    }
}

#[test]
fn anchors_are_added_once() {
    assert_eq!(expand_regex("a"), "^a$");
    assert_eq!(expand_regex("^a$"), "^a$");
    assert_eq!(expand_regex("^a"), "^^a$");
    assert_eq!(expand_regex(""), "^$");
}

#[test]
fn decode_reads_tags_and_values() {
    let tags = csl_to_map(" a , b = c ,d=e").unwrap();
    assert_eq!(tags.len(), 3);
    assert_eq!(tags.get("a"), Some(&None));
    assert_eq!(tags.get("b"), Some(&Some("c".to_string())));
    assert_eq!(tags.get("d"), Some(&Some("e".to_string())));
    assert_eq!(tags.get("c"), None);
}

#[test]
fn empty_text_decodes_to_empty_map() {
    assert_eq!(csl_to_map("").unwrap().len(), 0);
    assert_eq!(csl_to_map("  ").unwrap().len(), 0);
}

#[test]
fn later_item_wins() {
    let tags = csl_to_map("a=1,b,a=2").unwrap();
    assert_eq!(tags.len(), 2);
    assert_eq!(tags.get("a"), Some(&Some("2".to_string())));
}

#[test]
fn malformed_tag_lists_are_rejected() {
    for text in ["a,", ",a", "a=", "a b", "a==b", "=b", "a=b=c", "a,,b"] {
        assert!(matches!(csl_to_map(text), Err(XTagError::Parser(_))), "{text}");
    }
}

#[test]
fn encode_then_decode_gives_the_same_map() {
    let mut tags = XTags::new();
    tags.insert("year".to_string(), Some("2024".to_string()));
    tags.insert("draft".to_string(), None);
    tags.insert("author".to_string(), Some("me".to_string()));
    let text = map_to_csl(&tags);
    let back = csl_to_map(&text).unwrap();
    assert_eq!(back.len(), 3);
    assert_eq!(back.get("year"), Some(&Some("2024".to_string())));
    assert_eq!(back.get("draft"), Some(&None));
    assert_eq!(back.get("author"), Some(&Some("me".to_string())));
}

#[test]
fn encode_writes_items_in_stored_order() {
    let mut tags = XTags::new();
    tags.insert("b".to_string(), Some("1".to_string()));
    tags.insert("a".to_string(), None);
    tags.insert("b".to_string(), Some("2".to_string()));
    assert_eq!(map_to_csl(&tags), "b=2,a");
    assert_eq!(map_to_csl(&XTags::new()), "");
}

#[test]
fn rename_uses_capture_groups() {
    let mut tags = XTags::new();
    tags.insert("from".to_string(), Some("value".to_string()));
    let renamed = rename("f(.)om", "to$1", tags).unwrap();
    assert_eq!(renamed.len(), 1);
    assert_eq!(renamed.get("tor"), Some(&Some("value".to_string())));
}

#[test]
fn rename_keeps_unmatched_tags_and_merges_collisions() {
    let tags = csl_to_map("a1=x,a2=y,b=z").unwrap();
    let renamed = rename("a.", "a", tags).unwrap();
    assert_eq!(renamed.len(), 2);
    assert_eq!(renamed.get("b"), Some(&Some("z".to_string())));
    assert!(renamed.get("a").is_some());
}

#[test]
fn rename_rejects_invalid_pattern() {
    let tags = csl_to_map("a").unwrap();
    assert!(matches!(rename("x(?z)", "y", tags), Err(XTagError::Regex(p)) if p == "^x(?z)$"));
}

#[test]
fn unknown_bookmark_is_reported() {
    assert!(matches!(compile_search("{x} and a"), Err(XTagError::Bookmark(n)) if n == "x"));
}

#[test]
fn bookmark_cannot_expand_itself() {
    let books = vec![("x".to_string(), "{x} or a".to_string())];
    assert!(matches!(compile_search_with("{x}", &books), Err(XTagError::Bookmark(n)) if n == "x"));
}

#[test]
fn bookmarks_may_use_other_bookmarks() {
    let books = vec![
        ("outer".to_string(), "{inner} and c".to_string()),
        ("inner".to_string(), "a or b".to_string()),
    ];
    let s = compile_search_with("{outer}", &books).unwrap();
    assert_eq!(s.to_string(), "((^a$) OR (^b$)) AND (^c$)");
}

#[test]
fn blob_decodes_through_utf8() {
    assert_eq!(xtag::tags_from_blob(None).unwrap().len(), 0);
    let tags = xtag::tags_from_blob(Some("a=é,b".as_bytes())).unwrap();
    assert_eq!(tags.get("a"), Some(&Some("é".to_string())));
    assert_eq!(tags.get("b"), Some(&None));
    assert!(matches!(xtag::tags_from_blob(Some(&[0x61, 0xff])), Err(XTagError::Charset)));
    assert!(matches!(xtag::tags_from_blob(Some(b"a,")), Err(XTagError::Parser(2))));
}

#[test]
fn decode_error_points_at_rejected_character() {
    assert!(matches!(csl_to_map("a b"), Err(XTagError::Parser(2))));
    assert!(matches!(csl_to_map(",a"), Err(XTagError::Parser(0))));
    assert!(matches!(csl_to_map("a=b=c"), Err(XTagError::Parser(3))));
    assert!(matches!(csl_to_map("a="), Err(XTagError::Parser(2))));
}

#[test]
fn bookmark_resolution_stops_at_known_names() {
    let books = vec![("x".to_string(), "{x}".to_string())];
    let unknown = XTagError::Bookmark("y".to_string());
    let known = XTagError::Bookmark("x".to_string());
    assert_eq!(xtag::bookmark_to_resolve(&unknown, &books), Some("y".to_string()));
    assert_eq!(xtag::bookmark_to_resolve(&known, &books), None);
    assert_eq!(xtag::bookmark_to_resolve(&XTagError::Parser(0), &books), None);
}

#[test]
fn canonical_text_of_extreme_bounds() {
    let s = compile_search("a > -2147483648 and b <= 2147483647").unwrap();
    assert_eq!(s.to_string(), "(^a$ > -2147483648) AND (^b$ <= 2147483647)");
    assert!(matches!(compile_search("a > -2147483649"), Err(XTagError::IntParse(_))));
}
