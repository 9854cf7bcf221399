use bismuth::matcher::find_all_matches;

#[test]
fn finds_a_single_occurrence() {
    assert_eq!(find_all_matches("hello world", "world", true, false), vec![(6, 11)]);
}

#[test]
fn empty_query_matches_nothing() {
    assert_eq!(find_all_matches("hello world", "", true, false), vec![]);
    assert_eq!(find_all_matches("hello world", "", false, true), vec![]);
    assert_eq!(find_all_matches("", "", false, false), vec![]);
}

#[test]
fn query_longer_than_content_matches_nothing() {
    assert_eq!(find_all_matches("ab", "abc", false, false), vec![]);
    assert_eq!(find_all_matches("", "a", false, false), vec![]);
}

#[test]
fn case_sensitive_search_respects_case() {
    assert_eq!(find_all_matches("cat CAT cats", "cat", true, false), vec![(0, 3), (8, 11)]);
    assert_eq!(find_all_matches("cat CAT cats", "CAT", true, false), vec![(4, 7)]);
}

#[test]
fn case_insensitive_search_ignores_case() {
    assert_eq!(
        find_all_matches("cat CAT cats", "cAt", false, false),
        vec![(0, 3), (4, 7), (8, 11)]
    );
}

#[test]
fn whole_word_rejects_alphanumeric_neighbours() {
    assert_eq!(find_all_matches("cat CAT cats", "cat", false, true), vec![(0, 3), (4, 7)]);
    assert_eq!(find_all_matches("concat cat9 7cat (cat)", "cat", true, true), vec![(18, 21)]);
    assert_eq!(find_all_matches("cat", "cat", true, true), vec![(0, 3)]);
}

#[test]
fn whole_word_accepts_punctuation_and_underscore() {
    assert_eq!(find_all_matches("_cat_ cat-cat", "cat", true, true), vec![(1, 4), (6, 9), (10, 13)]);
}

#[test]
fn occurrences_that_share_bytes_are_each_reported() {
    assert_eq!(find_all_matches("aaa", "aa", true, false), vec![(0, 2), (1, 3)]);
    assert_eq!(find_all_matches("abababa", "aba", true, false), vec![(0, 3), (2, 5), (4, 7)]);
}

#[test]
fn offsets_are_byte_offsets() {
    // "é" takes two bytes, so "b" lies at offset 3
    assert_eq!(find_all_matches("aéb", "b", true, false), vec![(3, 4)]);
    assert_eq!(find_all_matches("éé", "é", true, false), vec![(0, 2), (2, 4)]);
}

#[test]
fn letters_outside_ascii_match_only_themselves() {
    assert_eq!(find_all_matches("École école", "école", false, false), vec![(7, 13)]);
    assert_eq!(find_all_matches("ÉCOLE", "École", false, false), vec![(0, 6)]);
}

#[test]
fn reported_spans_equal_the_query_ignoring_ascii_case() {
    let content = "Search the SEARCH box; research more";
    let query = "search";
    let spans = find_all_matches(content, query, false, false);
    assert_eq!(spans, vec![(0, 6), (11, 17), (25, 31)]);
    for (s, e) in spans {
        assert!(content[s..e].eq_ignore_ascii_case(query));
    }
}

#[test]
fn ignoring_case_finds_no_fewer_spans() {
    let content = "Word word WORD sword";
    let strict = find_all_matches(content, "word", true, false);
    let loose = find_all_matches(content, "word", false, false);
    assert_eq!(strict, vec![(5, 9), (16, 20)]);
    assert_eq!(loose, vec![(0, 4), (5, 9), (10, 14), (16, 20)]);
    for span in &strict {
        assert!(loose.contains(span));
    }
}

#[test]
fn search_agrees_with_a_scan_by_slices() {
    let content = "abcABCabc aBc abcabc xabcx ab";
    for query in ["abc", "ABC", "a", "bc", "c a", "abcabc", " "] {
        for case_sensitive in [true, false] {
            let mut expected = Vec::new();
            for start in 0..content.len() {
                let end = start + query.len();
                if end > content.len() {
                    break;
                }
                let part = &content[start..end];
                if part == query || (!case_sensitive && part.eq_ignore_ascii_case(query)) {
                    expected.push((start, end));
                }
            }
            assert_eq!(find_all_matches(content, query, case_sensitive, false), expected);
        }
    }
}
