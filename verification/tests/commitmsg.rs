use qreview::commitmsg::{diff, is, PATH};
use qreview::model::{FileStatus, Hunk, RowKind};

fn texts(hunk: &Hunk) -> Vec<(RowKind, String)> {
    hunk.rows.iter().map(|row| (row.kind, row.text.clone())).collect()
}

#[test]
fn against_the_parent_the_whole_message_is_new() {
    let file = diff("", "Add a thing\n\nBecause of that.\n", 10);

    assert_eq!(file.file.status, FileStatus::Added);
    assert_eq!(file.file.added, 3);
    assert_eq!(file.file.removed, 0);
    assert_eq!(file.hunks.len(), 1);
    assert_eq!(file.hunks[0].old_start, 0);
    assert_eq!(file.hunks[0].new_start, 1);
    assert!(file.hunks[0].rows.iter().all(|r| r.kind == RowKind::Add));
}

#[test]
fn an_amend_of_the_message_reads_as_a_diff() {
    let file = diff("Add a thing\n\nOld reason.\n", "Add a thing\n\nNew reason.\n", 10);

    assert_eq!(file.file.status, FileStatus::Modified);
    assert_eq!(file.file.added, 1);
    assert_eq!(file.file.removed, 1);
    assert_eq!(
        texts(&file.hunks[0]),
        vec![
            (RowKind::Context, "Add a thing".to_owned()),
            (RowKind::Context, String::new()),
            (RowKind::Remove, "Old reason.".to_owned()),
            (RowKind::Add, "New reason.".to_owned()),
        ]
    );
}

#[test]
fn a_word_that_moved_is_marked_inside_the_line() {
    let file = diff("Fix the parser\n", "Fix the printer\n", 10);
    let add = file.hunks[0].rows.iter().find(|row| row.kind == RowKind::Add).unwrap();

    assert!(!add.words.is_empty(), "the word span is missing");
}

#[test]
fn two_messages_that_are_the_same_are_still_readable() {
    let file = diff("Add a thing\n", "Add a thing\n", 10);

    assert_eq!(file.file.added, 0);
    assert_eq!(file.file.removed, 0);
    assert_eq!(texts(&file.hunks[0]), vec![(RowKind::Context, "Add a thing".to_owned())]);
}

#[test]
fn a_long_message_keeps_a_gap_between_two_changes() {
    let old: String = (1..=40).map(|n| format!("line {n}\n")).collect();
    let new = old.replace("line 1\n", "first\n").replace("line 40", "last");
    let file = diff(&old, &new, 3);

    assert_eq!(file.hunks.len(), 2, "the two ends must not be one hunk");
    assert_eq!(file.line_count, Some(40));
}

#[test]
fn the_path_belongs_to_no_tree() {
    assert!(is(PATH));
    assert!(!is("COMMIT_MSG"));
    assert!(PATH.starts_with('/'));
}

#[test]
fn an_empty_message_against_an_empty_one_has_no_hunk() {
    let file = diff("", "", 3);

    assert!(file.hunks.is_empty());
    assert_eq!(file.line_count, Some(0));
}

#[test]
fn a_word_span_of_the_message_is_a_byte_range_of_its_line() {
    let file = diff("Fix the café\n", "Fix the caffè\n", 10);
    let add = file.hunks[0].rows.iter().find(|row| row.kind == RowKind::Add).unwrap();
    let marked: Vec<&str> = add.words.iter().map(|w| &add.text[w.start..w.end]).collect();

    assert_eq!(marked, ["caffè"]);
}
