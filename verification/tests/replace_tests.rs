use bismuth::replace::{case_insensitive_replace, replace_in_block, replace_matches};

#[test]
fn case_sensitive_replace_leaves_other_cases() {
    assert_eq!(replace_in_block("cat CAT cats", "cat", "dog", true), "dog CAT dogs");
}

#[test]
fn case_sensitive_replace_is_idempotent_once_no_occurrence_is_left() {
    let once = replace_in_block("cat CAT cats", "cat", "dog", true);
    let twice = replace_in_block(&once, "cat", "dog", true);
    assert_eq!(once, "dog CAT dogs");
    assert_eq!(twice, once);
}

#[test]
fn case_insensitive_replace_takes_every_case() {
    assert_eq!(replace_in_block("cat Cat CAT", "CAT", "dog", false), "dog dog dog");
    assert_eq!(case_insensitive_replace("cat Cat CAT", "CAT", "dog"), "dog dog dog");
}

#[test]
fn case_insensitive_replace_keeps_the_case_around() {
    assert_eq!(case_insensitive_replace("My Cat SAT", "cat", "dog"), "My dog SAT");
}

#[test]
fn replacement_that_holds_the_search_term_is_not_searched_again() {
    assert_eq!(replace_matches("aXa", "a", "aa", true), "aaXaa");
    assert_eq!(case_insensitive_replace("cat", "CAT", "catcat"), "catcat");
}

#[test]
fn occurrences_do_not_overlap() {
    assert_eq!(replace_matches("aaa", "aa", "b", true), "ba");
    assert_eq!(replace_matches("aaaa", "aa", "b", true), "bb");
    assert_eq!(replace_matches("abababa", "aba", "x", false), "xbx");
}

#[test]
fn empty_search_term_changes_nothing() {
    assert_eq!(replace_matches("abc", "", "-", true), "abc");
    assert_eq!(case_insensitive_replace("abc", "", "-"), "abc");
    assert_eq!(replace_matches("", "", "-", true), "");
}

#[test]
fn content_without_occurrence_is_unchanged() {
    assert_eq!(replace_matches("hello", "xyz", "-", false), "hello");
    assert_eq!(replace_matches("", "a", "b", false), "");
    assert_eq!(replace_matches("ab", "abc", "-", false), "ab");
}

#[test]
fn replacing_by_nothing_deletes() {
    assert_eq!(replace_matches("a-b-c", "-", "", true), "abc");
    assert_eq!(replace_matches("aaa", "a", "", true), "");
}

#[test]
fn text_outside_ascii_is_carried_over() {
    assert_eq!(replace_matches("é cat é", "CAT", "ü", false), "é ü é");
    assert_eq!(replace_matches("ééé", "é", "e", true), "eee");
}
