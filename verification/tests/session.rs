use qreview::config::Config;
use qreview::git::merge::Base;
use qreview::lang::Languages;
use qreview::model::{
    Boundary, BoundaryKind, ChangeSummary, FileDiff, FileEntry, FileStatus, Hunk, RepoInfo, Row, RowKind, Series,
    Span,
};
use qreview::patchset::{Origin, PatchSet};
use qreview::session::{
    branch_name, check_run, commit_of, commit_of_set, context_rows, files_for_reader, how, last_lines, make_keys_unique,
    mark_in_series, paint, parse_base, patch_set_named, place_worktree, reviewed_versions, rows_to_utf16,
    without_token, Against,
};
use qreview::store::model::{ChangeFile, Comment, Scope};

fn change(key: &str, commit: &str) -> ChangeSummary {
    ChangeSummary {
        key: key.to_owned(),
        change_id: None,
        subject: format!("subject of {commit}"),
        author: "T".to_owned(),
        commit: commit.to_owned(),
        patch_set_count: 1,
        comment_count: 0,
        reviewed: false,
        is_merge: false,
        worktree: false,
    }
}

fn keys(changes: &[ChangeSummary]) -> Vec<&str> {
    changes.iter().map(|c| c.key.as_str()).collect()
}

#[test]
fn a_traced_address_carries_no_token() {
    assert_eq!(without_token("/", Some("t=secret")), "/");
    assert_eq!(
        without_token("/api/changes/I1/diff", Some("file=a.c&t=secret")),
        "/api/changes/I1/diff?file=a.c"
    );
    assert_eq!(without_token("/api/session", None), "/api/session");
}

#[test]
fn a_query_keeps_its_other_parts_in_order() {
    assert_eq!(without_token("/p", Some("a=1&t=x&b=2")), "/p?a=1&b=2");
}

#[test]
fn a_base_is_a_word_or_a_patch_set() {
    assert!(matches!(parse_base(None), Ok(None)));
    assert!(matches!(parse_base(Some("")), Ok(None)));
    assert!(matches!(parse_base(Some("parent")), Ok(None)));
    assert!(matches!(parse_base(Some("automerge")), Ok(Some(Against::Merge(Base::AutoMerge)))));
    assert!(matches!(parse_base(Some("parent2")), Ok(Some(Against::Merge(Base::Parent(2))))));
    match parse_base(Some("ps:007")) {
        Ok(Some(Against::Tree(name))) => assert_eq!(name, "ps:7"),
        other => panic!("{other:?}"),
    }
}

#[test]
fn an_unknown_base_is_refused_by_name() {
    assert_eq!(
        parse_base(Some("grandparent")).unwrap_err(),
        "base grandparent is not one of parent, automerge, parent1, parent2, ps:<n>"
    );
    assert!(parse_base(Some("ps:")).is_err());
}

#[test]
fn a_patch_set_placeholder_names_its_number() {
    assert_eq!(patch_set_named(&Against::Tree("ps:3".to_owned())), Some(3));
    assert_eq!(patch_set_named(&Against::Tree("4888eaa8".to_owned())), None);
    assert_eq!(patch_set_named(&Against::Parent), None);
}

#[test]
fn the_query_decides_the_whitespace_for_one_request() {
    let config = Config::default();
    assert!(how(&config.diff, Some("ignore")).ignore_ws);
    assert!(!how(&config.diff, Some("keep")).ignore_ws);
    assert_eq!(how(&config.diff, None).ignore_ws, config.diff.ignore_whitespace);
    assert_eq!(how(&config.diff, None).context, config.diff.context);
}

#[test]
fn a_run_of_lines_is_bounded() {
    assert!(check_run(1, 2001).is_ok());
    assert_eq!(check_run(1, 2002).unwrap_err(), "ask for a run of 2000 lines or fewer");
    assert!(check_run(5, 4).is_err());
}

#[test]
fn the_second_change_with_a_key_falls_back_to_its_hash() {
    let mut changes = vec![change("I1", "aaa"), change("I1", "bbb"), change("sha-ccc", "ccc")];
    make_keys_unique(&mut changes);

    assert_eq!(keys(&changes), ["I1", "sha-bbb", "sha-ccc"]);
}

#[test]
fn keys_made_unique_are_unique() {
    let mut changes = vec![change("I1", "a"), change("I1", "b"), change("I1", "c"), change("I2", "d")];
    make_keys_unique(&mut changes);

    let mut seen = std::collections::HashSet::new();
    assert!(changes.iter().all(|c| seen.insert(c.key.clone())));
}

fn series(changes: Vec<ChangeSummary>, boundary: Option<&str>) -> Series {
    Series {
        repo: RepoInfo { root: "/r".to_owned(), remote: None, id: "id".to_owned() },
        head: "head".to_owned(),
        oldest: "oldest".to_owned(),
        changes,
        boundary: Boundary {
            kind: BoundaryKind::Merge,
            commit: boundary.map(str::to_owned),
            subject: None,
            remaining: None,
            reason: String::new(),
            guessed: false,
            merge: None,
        },
    }
}

#[test]
fn a_key_names_a_change_or_the_merge_under_the_boundary() {
    let s = series(vec![change("I1", "aaa"), change("I2", "bbb")], Some("mmm"));

    assert_eq!(commit_of(&s, "I2").as_deref(), Some("bbb"));
    assert_eq!(commit_of(&s, "mmm").as_deref(), Some("mmm"));
    assert_eq!(commit_of(&s, "sha-mmm").as_deref(), Some("mmm"));
    assert_eq!(commit_of(&s, "I3"), None);
}

#[test]
fn the_work_not_committed_goes_on_top_and_away_again() {
    let mut tree = change("worktree", "wt1");
    tree.worktree = true;
    let mut changes = vec![change("I1", "aaa")];

    assert!(place_worktree(&mut changes, Some(tree.clone())));
    assert_eq!(keys(&changes), ["worktree", "I1"]);

    let mut moved = tree.clone();
    moved.commit = "wt2".to_owned();
    assert!(place_worktree(&mut changes, Some(moved)));
    assert_eq!(changes.len(), 2);
    assert_eq!(changes[0].commit, "wt2");

    assert!(!place_worktree(&mut changes, None));
    assert_eq!(keys(&changes), ["I1"]);
    assert!(!place_worktree(&mut changes, None));
    assert_eq!(keys(&changes), ["I1"]);
}

fn comment(commit: &str) -> Comment {
    Comment {
        id: format!("c-{commit}"),
        patch_set: 1,
        commit: commit.to_owned(),
        created_at: "t".to_owned(),
        updated_at: "t".to_owned(),
        scope: Scope::Change,
        body: "b".to_owned(),
        anchor: None,
    }
}

#[test]
fn the_versions_reviewed_are_named_once_and_never_the_current() {
    let mut file = ChangeFile::new("I1", "s");
    file.comments = vec![comment("old"), comment(""), comment("now"), comment("old"), comment("older")];
    let linked = vec!["older".to_owned(), "linked".to_owned(), "now".to_owned()];

    assert_eq!(reviewed_versions(Some(&file), &linked, "now"), ["old", "older", "linked"]);
    assert!(reviewed_versions(None, &linked, "now").is_empty());
}

#[test]
fn a_mark_lands_on_its_change_only() {
    let mut changes = vec![change("I1", "a"), change("I2", "b")];

    assert_eq!(mark_in_series(&mut changes, "I2", true), "subject of b");
    assert!(!changes[0].reviewed && changes[1].reviewed);
    assert_eq!(mark_in_series(&mut changes, "I9", true), "");
}

#[test]
fn the_branch_has_a_name_a_person_reads() {
    assert_eq!(branch_name(Some("main"), "other\n"), "main");
    assert_eq!(branch_name(None, "feature\n"), "feature");
    assert_eq!(branch_name(None, "HEAD\n"), "detached");
    assert_eq!(branch_name(None, ""), "detached");
}

fn set(number: usize, commit: &str) -> PatchSet {
    PatchSet {
        number,
        commit: commit.to_owned(),
        parent: None,
        origin: Origin::Gerrit,
        created_at: String::new(),
        subject: String::new(),
        gerrit_ref: None,
        available: false,
    }
}

#[test]
fn a_patch_set_is_found_by_its_number() {
    let sets = vec![set(1, "a"), set(2, "b")];

    assert_eq!(commit_of_set(&sets, "I1", 2).unwrap(), "b");
    assert_eq!(commit_of_set(&sets, "I1", 5).unwrap_err(), "change I1 has no patch set 5");
}

fn row(kind: RowKind, old: Option<usize>, new: Option<usize>, text: &str) -> Row {
    Row { kind, old_line: old, new_line: new, text: text.to_owned(), no_newline: false, tokens: Vec::new(), words: Vec::new() }
}

fn entry(path: &str, old: Option<&str>) -> FileEntry {
    FileEntry {
        path: path.to_owned(),
        old_path: old.map(str::to_owned),
        status: FileStatus::Modified,
        language: String::new(),
        binary: false,
        added: 1,
        removed: 1,
    }
}

fn file(rows: Vec<Row>) -> FileDiff {
    FileDiff {
        file: entry("a.c", None),
        hunks: vec![Hunk { old_start: 1, old_lines: 1, new_start: 1, new_lines: 1, header: "@@".to_owned(), rows }],
        line_count: None,
    }
}

#[test]
fn the_deepest_line_of_each_side_is_found() {
    let f = file(vec![
        row(RowKind::Context, Some(3), Some(4), "a"),
        row(RowKind::Remove, Some(9), None, "b"),
        row(RowKind::Add, None, Some(7), "c"),
    ]);

    assert_eq!(last_lines(&f), (9, 7));
}

fn span(cls: &str) -> Span {
    Span { start: 0, end: 1, cls: cls.to_owned() }
}

#[test]
fn each_row_takes_the_spans_of_its_side() {
    let mut f = file(vec![row(RowKind::Remove, Some(1), None, "x"), row(RowKind::Add, None, Some(2), "y")]);
    let new_side = vec![vec![span("n1")], vec![span("n2")]];
    let old_side = vec![vec![span("o1")]];
    paint(&mut f, Some(2), Some(&new_side), Some(&old_side));

    assert_eq!(f.hunks[0].rows[0].tokens[0].cls, "o1");
    assert_eq!(f.hunks[0].rows[1].tokens[0].cls, "n2");
    assert_eq!(f.line_count, Some(2));
}

#[test]
fn the_lines_opened_are_context_rows_of_the_file() {
    let spans = vec![vec![], vec![span("kw")]];
    let rows = context_rows("one\ntwo\nthree\n", 0, 9, &spans);

    assert_eq!(rows.len(), 3);
    assert_eq!(rows[1].text, "two");
    assert_eq!(rows[1].new_line, Some(2));
    assert_eq!(rows[1].tokens[0].cls, "kw");
    assert!(rows[2].tokens.is_empty());
    assert!(context_rows("one\n", 3, 2, &spans).is_empty());
}

#[test]
fn the_rows_leave_in_the_units_of_the_browser() {
    let mut r = row(RowKind::Add, None, Some(1), "héllo world");
    r.tokens = vec![Span { start: 7, end: 12, cls: "w".to_owned() }];
    let mut f = file(vec![r]);
    rows_to_utf16(&mut f);

    assert_eq!((f.hunks[0].rows[0].tokens[0].start, f.hunks[0].rows[0].tokens[0].end), (6, 11));
}

#[test]
fn between_two_versions_only_the_touched_files_are_shown() {
    let entries = vec![entry("a.blk", None), entry("b.c", Some("old.c")), entry("c.c", None)];
    let touched = vec!["a.blk".to_owned(), "old.c".to_owned()];
    let langs = Languages::new();

    let kept = files_for_reader(&entries, Some(&touched), &langs);
    let paths: Vec<&str> = kept.iter().map(|e| e.path.as_str()).collect();
    assert_eq!(paths, ["a.blk", "b.c"]);
    assert_eq!(kept[0].language, "c");

    assert_eq!(files_for_reader(&entries, None, &langs).len(), 3);
}

use qreview::session::{answer_about, newest_first, oldest_of, still_wanted};

#[test]
fn the_oldest_commit_is_the_last_change_or_the_head() {
    assert_eq!(oldest_of(&vec![change("a", "1"), change("b", "2")], "h"), "2");
    assert_eq!(oldest_of(&Vec::new(), "h"), "h");
}

#[test]
fn a_change_already_answered_is_not_asked_again() {
    let ids = vec!["I1".to_owned(), "I2".to_owned(), "I3".to_owned()];
    let known = vec!["I2".to_owned()];

    assert_eq!(still_wanted(&ids, &known), ["I1", "I3"]);
}

fn gerrit_change(id: &str) -> qreview::gerrit::Change {
    qreview::gerrit::Change {
        project: "p".to_owned(),
        branch: "main".to_owned(),
        id: id.to_owned(),
        number: 1,
        subject: String::new(),
        url: String::new(),
        status: String::new(),
        patch_sets: Vec::new(),
    }
}

#[test]
fn a_change_the_server_never_heard_of_has_no_answer() {
    let found = vec![gerrit_change("I1"), gerrit_change("I2")];

    assert_eq!(answer_about(&found, "I2"), Some(1));
    assert_eq!(answer_about(&found, "I9"), None);
}

#[test]
fn the_versions_read_newest_first() {
    let found = vec![
        ("2001".to_owned(), "a".to_owned(), "first".to_owned()),
        ("2003".to_owned(), "c".to_owned(), "third".to_owned()),
        ("2002".to_owned(), "b".to_owned(), "second".to_owned()),
        ("2003".to_owned(), "d".to_owned(), "fourth".to_owned()),
    ];
    let commits: Vec<String> = newest_first(found).into_iter().map(|v| v.1).collect();

    assert_eq!(commits, ["c", "d", "b", "a"]);
}

use qreview::session::{copy_spans, find_change, find_set};

#[test]
fn a_change_is_found_by_its_first_key() {
    let changes = vec![change("I1", "a"), change("I2", "b"), change("I2", "c")];

    assert_eq!(find_change(&changes, "I2"), Some(1));
    assert_eq!(find_change(&changes, "I9"), None);
}

#[test]
fn the_place_of_a_patch_set_is_its_index() {
    let set = |number: usize, commit: &str| PatchSet {
        number,
        commit: commit.to_owned(),
        parent: None,
        origin: Origin::Local,
        created_at: String::new(),
        subject: String::new(),
        gerrit_ref: None,
        available: true,
    };
    let sets = vec![set(1, "a"), set(2, "b")];

    assert_eq!(find_set(&sets, 2), Some(1));
    assert_eq!(find_set(&sets, 3), None);
}

#[test]
fn spans_are_copied_as_they_are() {
    let spans = vec![Span { start: 0, end: 3, cls: "tok-keyword".to_owned() }, Span { start: 4, end: 5, cls: "tok-punctuation".to_owned() }];

    assert_eq!(copy_spans(&spans), spans);
}

use qreview::gerrit::Failed;
use qreview::session::recorded;

#[test]
fn what_a_query_leaves_recorded_follows_how_it_failed() {
    let wanted = vec!["I1".to_owned(), "I2".to_owned()];

    assert_eq!(recorded(&wanted, &Err(Failed::Refused("no".to_owned()))), None);
    assert_eq!(
        recorded(&wanted, &Err(Failed::Unreachable("down".to_owned()))),
        Some(vec![("I1".to_owned(), None), ("I2".to_owned(), None)])
    );
    let found = vec![gerrit_change("I9"), gerrit_change("I2")];
    assert_eq!(recorded(&wanted, &Ok(found)), Some(vec![("I1".to_owned(), None), ("I2".to_owned(), Some(1))]));
}
