use qreview::diff::words::mark;
use qreview::model::{Hunk, Row, RowKind};

fn row(kind: RowKind, text: &str) -> Row {
    Row {
        kind,
        old_line: None,
        new_line: None,
        text: text.to_owned(),
        no_newline: false,
        tokens: Vec::new(),
        words: Vec::new(),
    }
}

fn hunk(rows: Vec<Row>) -> Hunk {
    Hunk { old_start: 1, old_lines: 0, new_start: 1, new_lines: 0, header: String::new(), rows }
}

fn marked(row: &Row) -> Vec<&str> {
    row.words.iter().map(|w| &row.text[w.start..w.end]).collect()
}

#[test]
fn one_changed_word_is_the_only_mark() {
    let mut h = hunk(vec![
        row(RowKind::Remove, "let total = one + two;"),
        row(RowKind::Add, "let total = one + three;"),
    ]);
    mark(&mut h);

    assert_eq!(marked(&h.rows[0]), ["two"]);
    assert_eq!(marked(&h.rows[1]), ["three"]);
}

#[test]
fn a_line_that_changed_completely_carries_no_mark() {
    let mut h = hunk(vec![
        row(RowKind::Remove, "int a = compute(x);"),
        row(RowKind::Add, "return None;"),
    ]);
    mark(&mut h);

    assert!(h.rows[0].words.is_empty(), "{:?}", marked(&h.rows[0]));
    assert!(h.rows[1].words.is_empty());
}

#[test]
fn a_context_row_is_never_marked() {
    let mut h = hunk(vec![
        row(RowKind::Context, "unchanged"),
        row(RowKind::Remove, "a b c"),
        row(RowKind::Add, "a B c"),
        row(RowKind::Context, "also unchanged"),
    ]);
    mark(&mut h);

    assert!(h.rows[0].words.is_empty());
    assert!(h.rows[3].words.is_empty());
    assert_eq!(marked(&h.rows[1]), ["b"]);
}

#[test]
fn a_removal_with_no_addition_is_left_alone() {
    let mut h = hunk(vec![row(RowKind::Remove, "gone"), row(RowKind::Context, "kept")]);
    mark(&mut h);

    assert!(h.rows[0].words.is_empty());
}

#[test]
fn rows_are_paired_in_order() {
    let mut h = hunk(vec![
        row(RowKind::Remove, "alpha one"),
        row(RowKind::Remove, "beta two"),
        row(RowKind::Add, "alpha ONE"),
        row(RowKind::Add, "beta TWO"),
    ]);
    mark(&mut h);

    assert_eq!(marked(&h.rows[0]), ["one"]);
    assert_eq!(marked(&h.rows[1]), ["two"]);
    assert_eq!(marked(&h.rows[2]), ["ONE"]);
    assert_eq!(marked(&h.rows[3]), ["TWO"]);
}

#[test]
fn a_third_removal_with_only_two_additions_stays_unpaired() {
    let mut h = hunk(vec![
        row(RowKind::Remove, "a one"),
        row(RowKind::Remove, "b two"),
        row(RowKind::Remove, "c three"),
        row(RowKind::Add, "a ONE"),
        row(RowKind::Add, "b TWO"),
    ]);
    mark(&mut h);

    assert_eq!(marked(&h.rows[0]), ["one"]);
    assert_eq!(marked(&h.rows[1]), ["two"]);
    assert!(h.rows[2].words.is_empty());
}

#[test]
fn the_unchanged_argument_stays_plain() {
    let mut h = hunk(vec![
        row(RowKind::Remove, "value = alpha.beta(1)"),
        row(RowKind::Add, "value = gamma.delta(1)"),
    ]);
    mark(&mut h);

    assert_eq!(marked(&h.rows[0]), ["alpha.beta"]);
    assert_eq!(marked(&h.rows[1]), ["gamma.delta"]);
}

#[test]
fn touching_spans_become_one_mark() {
    let mut h = hunk(vec![row(RowKind::Remove, "n = 1+2 end"), row(RowKind::Add, "n = 3-4 end")]);
    mark(&mut h);

    assert_eq!(marked(&h.rows[0]), ["1+2"]);
}

#[test]
fn a_span_is_a_byte_range_of_its_own_text() {
    let mut h = hunk(vec![
        row(RowKind::Remove, "greeting = \"héllo wörld\""),
        row(RowKind::Add, "greeting = \"héllo there\""),
    ]);
    mark(&mut h);

    for row in &h.rows {
        for span in &row.words {
            assert!(row.text.get(span.start..span.end).is_some(), "{span:?}");
        }
    }
    assert_eq!(marked(&h.rows[0]), ["wörld"]);
}

use qreview::diff::words::compare;
use qreview::model::WordSpan;

fn spans(v: &[WordSpan]) -> Vec<(usize, usize)> {
    v.iter().map(|s| (s.start, s.end)).collect()
}

#[test]
fn two_lines_compare_by_their_changed_words() {
    let (old, new) = compare("let total = a + b;", "let sum = a + b;");

    assert_eq!(spans(&old), [(4, 9)]);
    assert_eq!(spans(&new), [(4, 7)]);
}

#[test]
fn the_same_line_has_no_mark() {
    let (old, new) = compare("same", "same");

    assert!(old.is_empty() && new.is_empty());
}

#[test]
fn a_mark_holds_whole_characters() {
    let (old, new) = compare("un café noir", "un thé noir");

    assert_eq!(spans(&old), [(3, 8)]);
    assert_eq!(spans(&new), [(3, 7)]);
    assert!("un café noir".is_char_boundary(8) && "un thé noir".is_char_boundary(7));
}
