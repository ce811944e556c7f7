use qreview::export::{code_span, decode16, one_line, ordinal, quote, short};

fn units(s: &str) -> Vec<u16> {
    s.encode_utf16().collect()
}

#[test]
fn a_quote_counts_itself_only_when_the_line_repeats_it() {
    let twice = "\"flushing %d of row %d\"";
    let (first, second) = (twice.find("%d").unwrap(), twice.rfind("%d").unwrap());

    assert_eq!(quote(&units("    for (;;) {"), 4, 12).unwrap(), "`for (;;)`");
    assert_eq!(quote(&units(twice), first, first + 2).unwrap(), "the first `%d`");
    assert_eq!(quote(&units(twice), second, second + 2).unwrap(), "the second `%d`");
    assert_eq!(quote(&units("x x"), 1, 3).unwrap(), "the second `x`");
    assert_eq!(quote(&units("a  x  a"), 1, 6).unwrap(), "`x`");
    assert_eq!(quote(&units("   "), 0, 3), None);
}

#[test]
fn a_quote_with_a_backtick_gets_a_longer_fence() {
    assert_eq!(code_span("a `b` c"), "``a `b` c``");
    assert_eq!(code_span("`x"), "`` `x ``");
}

#[test]
fn ordinals_are_words_first_and_numbers_after() {
    let got: Vec<String> = [1, 2, 3, 9, 10, 11, 12, 13, 21, 22, 23, 112].into_iter().map(ordinal).collect();

    assert_eq!(
        got,
        ["first", "second", "third", "ninth", "10th", "11th", "12th", "13th", "21st", "22nd", "23rd", "112th"]
    );
}

#[test]
fn a_comment_on_several_lines_is_read_as_one() {
    assert_eq!(one_line("one\ntwo"), one_line("one two"));
}

#[test]
fn a_short_hash_is_twelve_characters() {
    assert_eq!(short("4888eaa8f1c2d3e4f5a6b7c8d9e0f1a2b3c4d5e6"), "4888eaa8f1c2");
    assert_eq!(short("abc"), "abc");
}

#[test]
fn a_quote_past_the_basic_plane_is_decoded_whole() {
    let line = units("x 🚀 y");
    assert_eq!(quote(&line, 2, 4).unwrap(), "`🚀`");
}

use qreview::export::{about, change_heading, change_opening, comment_text, place_name, series_opening};
use qreview::store::model::{Anchor, Comment, Scope, Side};

#[test]
fn the_head_of_a_change_counts_its_comments() {
    assert_eq!(about("Fix it", 2, false, 1, 0), "Change: Fix it\nPatch set 2 · 1 comment\n");
    assert_eq!(
        about("Fix it", 1, true, 3, 1),
        "Change: Fix it\nNot committed yet · 3 comments\n1 more was written on an earlier version, and left out here.\n"
    );
    assert_eq!(about("s", 1, false, 0, 2).lines().last(), Some("2 more were written on an earlier version, and left out here."));
}

#[test]
fn a_review_with_nothing_in_it_says_so() {
    let text = change_opening("p@main", "commit 123", false, "Change: s\n");
    assert_eq!(
        text,
        "## Review: p@main, commit 123\n\nI reviewed this commit and left the comments below. Please address them.\n\nChange: s\n\nNothing to report.\n"
    );
    assert!(change_opening("p@main", "commit 123", true, "").contains("lines marked `>`"));
}

#[test]
fn a_series_names_its_count_and_each_change() {
    assert!(series_opening("p@b", 3).starts_with("## Review: p@b, 3 commits\n"));
    assert_eq!(change_heading("abc", "Fix"), "\n### abc — Fix\n");
    assert_eq!(place_name("p", "b"), "p@b");
}

#[test]
fn a_comment_on_the_change_has_no_place() {
    let comment = Comment {
        id: "c-1".to_owned(),
        patch_set: 1,
        commit: String::new(),
        created_at: "t".to_owned(),
        updated_at: "t".to_owned(),
        scope: Scope::Change,
        body: "Split this\ncommit.".to_owned(),
        anchor: None,
    };
    assert_eq!(comment_text(1, &comment, None, ""), "\n1. The change as a whole\n\n   Split this commit.\n");
}

#[test]
fn a_comment_on_a_line_quotes_the_code() {
    let comment = Comment {
        id: "c-1".to_owned(),
        patch_set: 1,
        commit: String::new(),
        created_at: "t".to_owned(),
        updated_at: "t".to_owned(),
        scope: Scope::Line,
        body: "Why?".to_owned(),
        anchor: Some(Anchor {
            file: "a.c".to_owned(),
            side: Side::New,
            start_line: Some(3),
            end_line: Some(3),
            start_char: None,
            end_char: None,
            blob: None,
            line_hash: None,
            context: Vec::new(),
        }),
    };
    let file = ["one", "two", "three", "four", "five", "six"];
    let text = comment_text(2, &comment, Some(&file), "c");

    assert!(text.starts_with("\n2. `a.c:3`"), "{text}");
    assert!(text.contains("   ```c\n"), "{text}");
    assert!(text.ends_with("\n   Why?\n"), "{text}");
}

use qreview::export::{before_the_change, cut_of, excerpt, place_of, utf16_units};

fn on_lines(scope: Scope, side: Side, start: Option<usize>, end: Option<usize>, chars: Option<(usize, usize)>) -> Comment {
    Comment {
        id: "c-2".to_owned(),
        patch_set: 1,
        commit: String::new(),
        created_at: "t".to_owned(),
        updated_at: "t".to_owned(),
        scope,
        body: "x".to_owned(),
        anchor: Some(Anchor {
            file: "src/a.c".to_owned(),
            side,
            start_line: start,
            end_line: end,
            start_char: chars.map(|c| c.0),
            end_char: chars.map(|c| c.1),
            blob: None,
            line_hash: None,
            context: Vec::new(),
        }),
    }
}

#[test]
fn the_place_of_a_comment_names_the_file_and_its_lines() {
    assert_eq!(place_of(&on_lines(Scope::Line, Side::New, Some(3), Some(3), None)), "src/a.c:3");
    assert_eq!(place_of(&on_lines(Scope::Range, Side::New, Some(3), Some(5), None)), "src/a.c:3-5");
    assert_eq!(place_of(&on_lines(Scope::Range, Side::New, Some(5), Some(3), None)), "src/a.c:5");
    assert_eq!(place_of(&on_lines(Scope::File, Side::New, None, None, None)), "src/a.c (the file)");
    assert_eq!(place_of(&on_lines(Scope::Line, Side::New, None, None, None)), "src/a.c");
}

#[test]
fn a_removed_line_is_read_before_the_change() {
    assert_eq!(before_the_change(&on_lines(Scope::Line, Side::Old, Some(3), None, None)), " (before the change)");
    assert_eq!(before_the_change(&on_lines(Scope::Line, Side::New, Some(3), None, None)), "");
    assert_eq!(before_the_change(&on_lines(Scope::File, Side::Old, None, None, None)), "");
}

#[test]
fn an_excerpt_marks_the_lines_of_the_comment() {
    let file = ["l1", "l2", "l3", "l4", "l5", "l6", "l7", "l8", "l9", "l10", "l11"];
    let c = on_lines(Scope::Range, Side::New, Some(8), Some(9), None);

    assert_eq!(
        excerpt(&c, Some(&file)).unwrap(),
        "   6 | l6\n   7 | l7\n>  8 | l8\n>  9 | l9\n  10 | l10\n  11 | l11\n"
    );
    assert_eq!(excerpt(&c, None), None);
    assert_eq!(excerpt(&on_lines(Scope::Line, Side::New, Some(40), None, None), Some(&file)), None);
}

#[test]
fn a_cut_inside_a_line_quotes_the_text() {
    let file = ["int x = f(a, b);", "return x;"];

    assert_eq!(cut_of(&on_lines(Scope::Range, Side::New, Some(1), Some(1), Some((8, 15))), Some(&file)), ", on `f(a, b)`");
    assert_eq!(
        cut_of(&on_lines(Scope::Range, Side::New, Some(1), Some(2), Some((4, 6))), Some(&file)),
        ", from `x = f(a, b);` to `return`"
    );
    assert_eq!(cut_of(&on_lines(Scope::Range, Side::New, Some(1), Some(1), Some((0, 16))), Some(&file)), "");
    assert_eq!(cut_of(&on_lines(Scope::Line, Side::New, Some(1), Some(1), None), Some(&file)), "");
}

#[test]
fn a_line_is_measured_in_utf16_units() {
    assert_eq!(utf16_units("a\u{e9}\u{1f600}"), vec![0x61, 0xe9, 0xd83d, 0xde00]);
}

#[test]
fn utf16_units_decode_with_pairs_joined_and_strays_replaced() {
    assert_eq!(decode16(&units("plain")), "plain");
    assert_eq!(decode16(&units("a\u{1F600}b")), "a\u{1F600}b");
    assert_eq!(decode16(&[0x61, 0xD800, 0x62]), "a\u{FFFD}b");
    assert_eq!(decode16(&[0xDC00, 0xD83D]), "\u{FFFD}\u{FFFD}");
    assert_eq!(decode16(&[]), "");
}
