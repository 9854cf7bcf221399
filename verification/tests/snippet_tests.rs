use bismuth::snippet::{build_snippet, SNIPPET_CONTEXT};
use bismuth::text::{is_blank, trim};

#[test]
fn short_content_is_shown_whole() {
    assert_eq!(build_snippet("hello world", 6, 5, 40), "hello world");
    assert_eq!(SNIPPET_CONTEXT, 40);
}

#[test]
fn text_left_out_is_marked_on_both_sides() {
    let content = "0123456789abcdefghijMATCHklmnopqrst0123456789";
    assert_eq!(build_snippet(content, 20, 5, 4), "...ghijMATCHklmn...");
    assert_eq!(build_snippet(content, 20, 5, 20), "0123456789abcdefghijMATCHklmnopqrst0123456789");
    assert_eq!(build_snippet(content, 20, 5, 19), "...123456789abcdefghijMATCHklmnopqrst012345678...");
}

#[test]
fn only_the_cut_side_is_marked() {
    assert_eq!(build_snippet("abcdefghij", 0, 2, 3), "abcde...");
    assert_eq!(build_snippet("abcdefghij", 8, 2, 3), "...fghij");
}

#[test]
fn blanks_at_the_ends_of_the_window_are_removed() {
    assert_eq!(build_snippet("ab   cd   ef", 5, 2, 3), "...cd...");
    assert_eq!(build_snippet("  cd  ", 2, 2, 40), "cd");
    assert_eq!(build_snippet("ab \u{a0}\u{2003}cd\u{3000}\tef", 8, 2, 4), "...cd...");
    assert_eq!(build_snippet("ab \u{a0}\u{2003}cd\u{3000}\tef", 8, 2, 6), "...cd\u{3000}\tef");
}

#[test]
fn zero_context_shows_the_match_alone() {
    assert_eq!(build_snippet("one two three", 4, 3, 0), "...two...");
    assert_eq!(build_snippet("two", 0, 3, 0), "two");
}

#[test]
fn window_is_cut_at_character_boundaries() {
    // each "é" takes two bytes; a cut inside one leaves that character out
    let content = "ééééXéééé";
    assert_eq!(build_snippet(content, 8, 1, 3), "...éXé...");
    assert_eq!(build_snippet(content, 8, 1, 4), "...ééXéé...");
}

#[test]
fn offsets_beyond_the_content_give_no_failure() {
    assert_eq!(build_snippet("abc", 10, 5, 2), "...");
    assert_eq!(build_snippet("abc", 2, usize::MAX, usize::MAX), "abc");
    assert_eq!(build_snippet("", 0, 0, 40), "");
}

#[test]
fn snippet_holds_the_match_and_is_bounded() {
    let content = "The quick brown fox jumps over the lazy dog and runs far away from here";
    let (start, len, context) = (16usize, 3usize, 10usize);
    let snippet = build_snippet(content, start, len, context);
    assert_eq!(snippet, "...ick brown fox jumps ove...");
    assert!(snippet.contains(&content[start..start + len]));
    assert!(snippet.len() <= 2 * context + len + 6);
}

#[test]
fn trim_removes_unicode_blanks() {
    assert_eq!(trim("  a b \t\r\n"), "a b");
    assert_eq!(trim("\u{85}\u{a0}\u{1680}\u{2000}\u{200a}\u{2028}\u{2029}\u{202f}\u{205f}\u{3000}x\u{3000}"), "x");
    assert_eq!(trim("\u{b}\u{c}x"), "x");
    assert_eq!(trim("\u{200b}x"), "\u{200b}x");
    assert_eq!(trim("   "), "");
    assert_eq!(trim(""), "");
    assert_eq!(trim("é "), "é");
}

#[test]
fn blank_texts_are_recognised() {
    assert!(is_blank(""));
    assert!(is_blank("   "));
    assert!(is_blank(" \t\u{a0}\n"));
    assert!(!is_blank(" a "));
    assert!(!is_blank("\u{200b}"));
}

#[test]
fn trim_agrees_with_the_blanks_of_unicode() {
    for code in 0..=0x10ffffu32 {
        if let Some(c) = char::from_u32(code) {
            let text = format!("{c}x{c}");
            assert_eq!(trim(&text), text.trim(), "U+{code:04X}");
            let inner = format!("a{c}b");
            assert_eq!(trim(&inner), inner, "U+{code:04X}");
        }
    }
}
