use xtag::{compile_search_with, csl_to_map};

fn find_in_string(term: &str, string: &str) -> bool {
    let bookmarks = vec![("tests/a_or_b".to_string(), "a or b".to_string())];
    let tags = csl_to_map(string).unwrap();
    let searcher = compile_search_with(term, &bookmarks).unwrap();
    searcher.is_match(&tags)
}

#[test]
fn grammar_bookmarks_have_implicit_parentheses() {
    assert_eq!(find_in_string("{tests/a_or_b} and c", "a,c"), true);
    assert_eq!(find_in_string("{tests/a_or_b} and c", "c"), false);
    assert_eq!(find_in_string("{tests/a_or_b} and c", "a"), false);
}
