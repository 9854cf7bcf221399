use bismuth::aggregator::{search_blocks, BlockRow, PageRow};

fn block(id: &str, page: &str, title: &str, content: &str, order: i32) -> BlockRow {
    BlockRow {
        block_id: id.to_string(),
        page_id: page.to_string(),
        block_type: "{\"type\":\"Text\"}".to_string(),
        content: content.to_string(),
        order,
        page_title: title.to_string(),
        page_icon: None,
    }
}

fn page(id: &str, title: &str) -> PageRow {
    PageRow { page_id: id.to_string(), title: title.to_string(), icon: None }
}

#[test]
fn blank_query_finds_nothing() {
    let blocks = vec![block("b1", "A", "Intro", "hello   world", 0)];
    let pages = vec![page("A", "Intro")];
    for query in ["", "   ", " \t\n"] {
        let response = search_blocks(&blocks, &pages, query, false, false);
        assert!(response.groups.is_empty());
        assert_eq!(response.total_matches, 0);
    }
}

#[test]
fn body_match_comes_before_title_only_match() {
    let blocks = vec![block("b1", "A", "Intro", "hello world", 0)];
    let pages = vec![page("B", "World Tour"), page("A", "Intro")];
    let response = search_blocks(&blocks, &pages, "world", false, false);
    assert_eq!(response.total_matches, 2);
    assert_eq!(response.groups.len(), 2);

    let a = &response.groups[0];
    assert_eq!(a.page_id, "A");
    assert_eq!(a.page_title, "Intro");
    assert_eq!(a.matches.len(), 1);
    assert_eq!(a.matches[0].block_id, "b1");
    assert_eq!(a.matches[0].content, "hello world");
    assert_eq!(a.matches[0].block_type, "{\"type\":\"Text\"}");
    assert_eq!((a.matches[0].match_start, a.matches[0].match_end), (6, 11));
    assert_eq!(a.matches[0].snippet, "hello world");
    assert_eq!(a.matches[0].order, 0);

    let b = &response.groups[1];
    assert_eq!(b.page_id, "B");
    assert_eq!(b.page_title, "World Tour");
    assert_eq!(b.matches.len(), 1);
    assert_eq!(b.matches[0].block_id, "title-B");
    assert_eq!(b.matches[0].content, "World Tour");
    assert_eq!(b.matches[0].block_type, "Title");
    assert_eq!((b.matches[0].match_start, b.matches[0].match_end), (0, 5));
    assert_eq!(b.matches[0].snippet, "World Tour");
    assert_eq!(b.matches[0].order, -1);
}

#[test]
fn title_matches_stand_before_body_matches_of_the_same_page() {
    let blocks = vec![
        block("b1", "A", "Notes on notes", "first note", 0),
        block("b2", "A", "Notes on notes", "no match here", 1),
        block("b3", "A", "Notes on notes", "note note", 2),
    ];
    let pages = vec![page("A", "Notes on notes")];
    let response = search_blocks(&blocks, &pages, "note", false, false);
    assert_eq!(response.total_matches, 5);
    assert_eq!(response.groups.len(), 1);
    let ids: Vec<(&str, usize)> = response.groups[0]
        .matches
        .iter()
        .map(|m| (m.block_id.as_str(), m.match_start))
        .collect();
    assert_eq!(ids, vec![("title-A", 0), ("title-A", 9), ("b1", 6), ("b3", 0), ("b3", 5)]);
}

#[test]
fn groups_follow_the_first_match_of_each_page() {
    let blocks = vec![
        block("b1", "pg-two", "Two", "x marks", 0),
        block("b2", "pg-one", "One", "nothing", 0),
        block("b3", "pg-three", "Three", "x again", 0),
        block("b4", "pg-two", "Two", "x x", 1),
        block("b5", "pg-one", "One", "late x", 1),
    ];
    let pages = vec![page("pg-four", "x only in title"), page("pg-one", "One"), page("pg-three", "x3")];
    let response = search_blocks(&blocks, &pages, "x", true, true);
    let order: Vec<(&str, usize)> =
        response.groups.iter().map(|g| (g.page_id.as_str(), g.matches.len())).collect();
    assert_eq!(order, vec![("pg-two", 3), ("pg-three", 1), ("pg-one", 1), ("pg-four", 1)]);
    assert_eq!(response.total_matches, 6);
    let sum: usize = response.groups.iter().map(|g| g.matches.len()).sum();
    assert_eq!(sum, response.total_matches);
}

#[test]
fn group_takes_title_and_icon_of_the_first_matching_row() {
    let mut first = block("b1", "A", "Title at scan", "needle", 0);
    first.page_icon = Some("icon.png".to_string());
    let blocks = vec![first, block("b2", "A", "Other title", "needle", 1)];
    let response = search_blocks(&blocks, &vec![], "needle", true, false);
    assert_eq!(response.groups.len(), 1);
    assert_eq!(response.groups[0].page_title, "Title at scan");
    assert_eq!(response.groups[0].page_icon, Some("icon.png".to_string()));
    assert_eq!(response.groups[0].matches.len(), 2);
}

#[test]
fn snippets_of_long_blocks_are_cut_at_forty_bytes() {
    let content = format!("{}needle{}", "a".repeat(50), "b".repeat(50));
    let blocks = vec![block("b1", "A", "T", &content, 0)];
    let response = search_blocks(&blocks, &vec![], "needle", true, false);
    let expected = format!("...{}needle{}...", "a".repeat(40), "b".repeat(40));
    assert_eq!(response.groups[0].matches[0].snippet, expected);
    assert_eq!(response.groups[0].matches[0].match_start, 50);
    assert_eq!(response.groups[0].matches[0].match_end, 56);
}

#[test]
fn deleted_page_and_its_blocks_are_not_found() {
    let blocks = vec![
        block("a1", "A", "Hello A", "hello from a", 0),
        block("b1", "B", "Hello B", "hello from b", 0),
        block("a2", "A", "Hello A", "hello again", 1),
    ];
    let pages = vec![page("A", "Hello A"), page("B", "Hello B")];
    let before = search_blocks(&blocks, &pages, "hello", false, false);
    assert_eq!(before.total_matches, 5);
    assert_eq!(before.groups.len(), 2);

    // page A is deleted, and its blocks with it
    let blocks: Vec<BlockRow> = blocks.into_iter().filter(|b| b.page_id != "A").collect();
    let pages: Vec<PageRow> = pages.into_iter().filter(|p| p.page_id != "A").collect();
    let after = search_blocks(&blocks, &pages, "hello", false, false);
    assert_eq!(after.total_matches, 2);
    assert_eq!(after.groups.len(), 1);
    assert_eq!(after.groups[0].page_id, "B");
    let ids: Vec<&str> = after.groups[0].matches.iter().map(|m| m.block_id.as_str()).collect();
    assert_eq!(ids, vec!["title-B", "b1"]);
}

#[test]
fn snippets_in_results_hold_their_match() {
    let content = format!("{} The Needle lies here {}", "x".repeat(60), "y".repeat(60));
    let blocks = vec![block("b1", "A", "T", &content, 0)];
    let response = search_blocks(&blocks, &vec![], "needle", false, false);
    let m = &response.groups[0].matches[0];
    assert_eq!((m.match_start, m.match_end), (65, 71));
    assert!(m.snippet.contains(&content[m.match_start..m.match_end]));
    assert!(m.snippet.len() <= 2 * 40 + (m.match_end - m.match_start) + 6);
    assert_eq!(
        m.snippet,
        format!("...{} The Needle lies here {}...", "x".repeat(35), "y".repeat(29))
    );
}

#[test]
fn query_is_not_trimmed_before_the_scan() {
    let blocks = vec![block("b1", "A", "T", "a b", 0)];
    let response = search_blocks(&blocks, &vec![], " b", true, false);
    assert_eq!(response.total_matches, 1);
    assert_eq!(response.groups[0].matches[0].match_start, 1);
}
