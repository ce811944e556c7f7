use qreview::anchor::{best_match, distance, matched};
use qreview::comments::hash_line;

fn lines(text: &str) -> Vec<&str> {
    text.lines().collect()
}

fn context(of: &[&str]) -> Vec<String> {
    of.iter().map(|l| (*l).to_owned()).collect()
}

/// The share of the stored context found around the line: the lines of the
/// context that match, over the lines the context holds.
fn score(context: &[String], fresh: &[&str], at: usize, above: usize) -> f32 {
    matched(context, fresh, at, above) as f32 / context.len() as f32
}

#[test]
fn a_line_that_did_not_move_is_found_where_it_was() {
    let file = lines("one\ntwo\nthree\nfour\n");
    let stored = context(&["one", "two", "three"]);

    assert_eq!(best_match(&hash_line("two"), &stored, &file, 2), Some(2));
}

#[test]
fn a_line_pushed_down_is_found_lower() {
    let file = lines("new\nlines\nhere\none\ntwo\nthree\n");
    let stored = context(&["one", "two", "three"]);

    assert_eq!(best_match(&hash_line("two"), &stored, &file, 2), Some(5));
}

#[test]
fn the_candidate_with_the_matching_context_wins() {
    let file = lines("start\nx = 1\nmiddle\nbefore\nx = 1\nafter\n");
    let stored = context(&["before", "x = 1", "after"]);

    assert_eq!(best_match(&hash_line("x = 1"), &stored, &file, 2), Some(5));
}

#[test]
fn the_nearest_candidate_breaks_a_tie() {
    let file = lines("a\nsame\nb\nc\nd\nsame\ne\n");
    let stored = context(&["gone", "same", "vanished"]);

    assert_eq!(best_match(&hash_line("same"), &stored, &file, 2), None);
}

#[test]
fn trailing_space_does_not_lose_the_anchor() {
    let file = lines("one\ntwo   \nthree\n");
    let stored = context(&["one", "two", "three"]);

    assert_eq!(best_match(&hash_line("two"), &stored, &file, 2), Some(2));
}

#[test]
fn a_line_that_is_gone_is_not_invented() {
    let file = lines("one\nthree\n");
    let stored = context(&["one", "two", "three"]);

    assert_eq!(best_match(&hash_line("two"), &stored, &file, 2), None);
}

#[test]
fn a_score_of_a_whole_match_is_one() {
    let file = lines("one\ntwo\nthree\n");
    assert_eq!(score(&context(&["one", "two", "three"]), &file, 2, 1), 1.0);
}

#[test]
fn a_score_with_nothing_around_it_is_zero() {
    let file = lines("x\ntwo\ny\n");
    assert_eq!(score(&context(&["one", "two", "three"]), &file, 2, 1), 1.0 / 3.0);
}

#[test]
fn the_first_line_of_a_file_is_scored_where_it_is() {
    let file = lines("one\ntwo\nthree\n");
    let stored = context(&["one", "two", "three"]);

    assert_eq!(score(&stored, &file, 1, 0), 1.0);
    assert_eq!(best_match(&hash_line("one"), &stored, &file, 1), Some(1));
}

#[test]
fn the_first_line_is_found_again_after_lines_are_put_above_it() {
    let file = lines("new\nlines\none\ntwo\nthree\n");
    let stored = context(&["one", "two", "three"]);

    assert_eq!(best_match(&hash_line("one"), &stored, &file, 1), Some(3));
}

#[test]
fn a_distance_is_the_same_both_ways() {
    assert_eq!(distance(2, 7), 5);
    assert_eq!(distance(7, 2), 5);
    assert_eq!(distance(4, 4), 0);
}

#[test]
fn a_hash_ignores_the_space_at_the_end_of_a_line() {
    assert_eq!(hash_line("two   "), hash_line("two"));
    assert_ne!(hash_line("two"), hash_line("three"));
    assert_eq!(hash_line("two"), "sha256:3fc4ccfe745870e2");
}

use qreview::anchor::{after_text, first_step, found, gone, nowhere, same_file, Placed, Step};
use qreview::store::model::{Anchor, Comment, Scope, Side};

fn written(scope: Scope, file: &str, side: Side, start: Option<usize>, end: Option<usize>, blob: Option<&str>, text_at: &str) -> Comment {
    let fresh = lines(text_at);
    let line_hash = start.and_then(|s| fresh.get(s - 1)).map(|l| hash_line(l));
    let ctx = match start {
        Some(s) => context(&fresh[s.saturating_sub(4)..(s + 3).min(fresh.len())]),
        None => Vec::new(),
    };
    Comment {
        id: "c-7".to_owned(),
        patch_set: 1,
        commit: "old".to_owned(),
        created_at: "t".to_owned(),
        updated_at: "t".to_owned(),
        scope,
        body: "hm".to_owned(),
        anchor: Some(Anchor {
            file: file.to_owned(),
            side,
            start_line: start,
            end_line: end,
            start_char: None,
            end_char: None,
            blob: blob.map(str::to_owned),
            line_hash,
            context: ctx,
        }),
    }
}

#[test]
fn a_comment_on_no_line_lands_nowhere_and_is_not_lost() {
    let on_file = written(Scope::File, "a.c", Side::New, None, None, None, "");
    match first_step(&on_file, "rev", "base") {
        Step::Done(p) => assert_eq!(p, nowhere("c-7".to_owned())),
        _ => panic!("a comment on a file reads nothing"),
    }
}

#[test]
fn the_message_and_a_file_are_read_in_the_tree_of_their_side() {
    let message = written(Scope::Line, "/COMMIT_MSG", Side::New, Some(1), None, None, "subject\n");
    assert!(matches!(first_step(&message, "rev", "base"), Step::Message(t) if t == "rev"));

    let removed = written(Scope::Line, "src/a.c", Side::Old, Some(2), None, None, "x\ny\n");
    assert!(matches!(first_step(&removed, "rev", "base"), Step::Blob(t, p) if t == "base" && p == "src/a.c"));
}

#[test]
fn a_file_whose_blob_did_not_change_keeps_its_comment_in_place() {
    let c = written(Scope::Range, "a.c", Side::New, Some(2), Some(3), Some("b1"), "one\ntwo\nthree\n");

    assert_eq!(same_file(&c, &Some("b1".to_owned())), Some(found("c-7".to_owned(), 2, 1, false)));
    assert_eq!(same_file(&c, &Some("b2".to_owned())), None);
    assert_eq!(same_file(&c, &None), None);
}

#[test]
fn a_line_moved_down_is_followed_and_its_range_keeps_its_length() {
    let before = "one\ntwo\nthree\nfour\n";
    let c = written(Scope::Range, "a.c", Side::New, Some(2), Some(3), None, before);
    let p: Placed = after_text(&c, Some("zero\nzero\none\ntwo\nthree\nfour\n".to_owned()));

    assert_eq!(p, found("c-7".to_owned(), 4, 1, true));
}

#[test]
fn a_line_that_is_gone_or_unreadable_loses_the_comment() {
    let c = written(Scope::Line, "a.c", Side::New, Some(2), None, None, "one\ntwo\nthree\n");

    assert_eq!(after_text(&c, Some("one\nthree\n".to_owned())), gone("c-7".to_owned()));
    assert_eq!(after_text(&c, None), gone("c-7".to_owned()));
}
