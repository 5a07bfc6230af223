use xtag::{compile_search, csl_to_map};

fn find_in_string(term: &str, string: &str) -> bool {
    let tags = csl_to_map(string).unwrap();
    let searcher = compile_search(term).unwrap();
    searcher.is_match(&tags)
}

#[test]
fn grammar_or_has_lower_priority_than_and() {
    assert!(find_in_string("a AND b OR c AND d", "a,b,d") == true);
    assert!(find_in_string("a AND b OR c AND d", "c,d") == true);
    assert!(find_in_string("a AND b OR c AND d", "a,b") == true);

    assert!(find_in_string("(a AND b) OR (c AND d)", "a,b,d") == true);
    assert!(find_in_string("(a AND b) OR (c AND d)", "c,d") == true);
    assert!(find_in_string("(a AND b) OR (c AND d)", "a,b") == true);

    assert!(find_in_string("a AND (b OR c) AND d", "a,b,d") == true);
    assert!(find_in_string("a AND (b OR c) AND d", "c,d") == false);
    assert!(find_in_string("a AND (b OR c) AND d", "a,b") == false);

    assert!(find_in_string("a AND b OR c", "a,b") == true);
    assert!(find_in_string("a AND b OR c", "c") == true);
    assert!(find_in_string("a AND b OR c", "a") == false);

    assert!(find_in_string("(a AND b) OR c", "a,b") == true);
    assert!(find_in_string("(a AND b) OR c", "c") == true);

    assert!(find_in_string("a AND (b OR c)", "a,b") == true);
    assert!(find_in_string("a AND (b OR c)", "a,c") == true);
    assert!(find_in_string("a AND (b OR c)", "a") == false);
}

#[test]
fn grammar_supports_not() {
    assert!(find_in_string("NOT a AND b", "a,b") == false);
    assert!(find_in_string("NOT a AND b", "b") == true);
    assert!(find_in_string("NOT a AND b", "c") == false);

    assert!(find_in_string("NOT (a AND b)", "a,b") == false);
    assert!(find_in_string("NOT (a AND b)", "b") == true);
    assert!(find_in_string("NOT (a AND b)", "c") == true);
}

#[test]
fn grammar_tag_matches_are_case_sensitive() {
    assert!(find_in_string("a && !A", "a") == true);
    assert!(find_in_string("a && !A", "a,A") == false);
    assert!(find_in_string("!A", "a") == true);
}

#[test]
fn grammar_operator_notations_can_be_mixed() {
    assert!(find_in_string("a && b || c AND d", "c,d") == true);
    assert!(find_in_string("!a AND b", "b") == true);
}

#[test]
fn grammar_operator_supports_variable_spaces() {
    assert!(find_in_string("(aANDb)ORc", "a,b") == false);
    assert!(find_in_string("(a AND b)OR c", "a,b") == true);
    assert!(find_in_string(" ( a and b ) or c ", "a,b") == true);
    assert!(find_in_string("(a&&b)||c", "a,b") == true)
}

#[test]
fn grammar_supports_string_value_equality() {
    assert!(find_in_string("a == b AND c", "a=b,c") == true);
    assert!(find_in_string("a == b", "a=c") == false);
    assert!(find_in_string("a == 1 or a == 2", "a=1") == true);
    assert!(find_in_string("a == 1 or a == 2", "a=3") == false);
    assert!(find_in_string("a and b == 1 or b == 2", "a,b=1") == true);
    assert!(find_in_string("a and b == 1 or b == 2", "a,b=2") == true);
    assert!(find_in_string("a and b == 1 or b == 2", "a,b=3") == false);
    assert!(find_in_string("a and b == 1 or b == 2", "b=1") == false);
    assert!(find_in_string("a and b == 1 or b == 2", "a") == false);
}

#[test]
fn grammar_supports_string_value_inequality() {
    assert!(find_in_string(".* != b", "a=c,b=d") == true);
    assert!(find_in_string(".* != b", "a=b,b=d") == false);
}

#[test]
fn grammar_supports_int_value_relations() {
    assert!(find_in_string("a > 1 AND a < 3", "a=2") == true);
    assert!(find_in_string("a > 1 AND a < 3", "a=1") == false);
    assert!(find_in_string("a > 1 AND a < 3", "a=3") == false);
    assert!(find_in_string("a > 1 AND a < 3", "a") == false);
}

#[test]
fn grammar_supports_regex_for_tags() {
    assert!(find_in_string("a+b", "aaab") == true);
    assert!(find_in_string("a+b", "aaabb") == false);
    assert!(find_in_string("a+b == c", "aaab=c") == true);
    assert!(find_in_string("a+b == c", "aaabb=c") == false);
}

#[test]
fn grammar_supports_regex_for_values() {
    assert!(find_in_string("a==b+c", "a=bbbc") == true);
    assert!(find_in_string("a==b+c", "a=c") == false);
    assert!(find_in_string("a==b+c", "d=bbbc") == false);
}

#[test]
fn grammar_supports_regex_groups_for_values() {
    assert!(find_in_string("a==(ab|cd)+e", "a=ababe") == true);
    assert!(find_in_string("a==f(ab|cd)+e", "a=fabcdcdabe") == true);
    assert!(find_in_string("a==(ab)+e", "a=e") == false);
}

#[test]
fn grammar_supports_regex_groups_for_tags() {
    assert!(find_in_string("f(ab|cd)e==b+c", "fabe=bbbc") == true);
    assert!(find_in_string("(ab|cd)==b+c", "cd=bbbc") == true);
    assert!(find_in_string("(ab|cd)==b+c", "ac=bbbc") == false);
}

#[test]
fn grammar_supports_all_in_one() {
    assert!(
        find_in_string(
            "f(ab|cd).*e == b[ac]d && g[^h] < 20 AND !i",
            "fabxe=bad,gj=10"
        ) == true
    );
    assert!(
        find_in_string(
            "f(ab|cd).*e == b[ac]d && g[^h] < 20 AND !i",
            "fabxe=bad,gj=10,i"
        ) == false
    );
}

fn test_stability(term: &str) {
    let term2 = compile_search(term).unwrap().to_string();
    let term3 = compile_search(&term2).unwrap().to_string();
    assert_eq!(term2, term3);
}

#[test]
fn display_is_stable() {
    test_stability("a or b and c");
    test_stability("(a or b) and c");
    test_stability("a or (b and c)");
}
