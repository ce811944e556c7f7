use qreview::model::{
    Boundary, BoundaryKind, ChangeSummary, FileEntry, FileStatus, MergeInfo, ParentInfo, RepoInfo, Series,
};
use qreview::report::{boundary_line, file_line, render, ChangeFiles};

fn change(key: &str, commit: &str, subject: &str, change_id: Option<&str>, worktree: bool) -> ChangeSummary {
    ChangeSummary {
        key: key.to_owned(),
        change_id: change_id.map(str::to_owned),
        subject: subject.to_owned(),
        author: "A U Thor".to_owned(),
        commit: commit.to_owned(),
        patch_set_count: 1,
        comment_count: 0,
        reviewed: false,
        is_merge: false,
        worktree,
    }
}

fn boundary(kind: BoundaryKind, reason: &str, guessed: bool) -> Boundary {
    Boundary {
        kind,
        commit: None,
        subject: None,
        remaining: None,
        reason: reason.to_owned(),
        guessed,
        merge: None,
    }
}

fn entry(path: &str, old: Option<&str>, status: FileStatus, binary: bool, added: usize, removed: usize) -> FileEntry {
    FileEntry {
        path: path.to_owned(),
        old_path: old.map(str::to_owned),
        status,
        language: String::new(),
        binary,
        added,
        removed,
    }
}

fn series(changes: Vec<ChangeSummary>, boundary: Boundary) -> Series {
    Series {
        repo: RepoInfo { root: "/src/proj".to_owned(), remote: Some("example.com/proj".to_owned()), id: "proj-1".to_owned() },
        head: "h".to_owned(),
        oldest: "o".to_owned(),
        changes,
        boundary,
    }
}

#[test]
fn a_file_line_names_its_status_and_its_counts() {
    assert_eq!(file_line(&entry("a.c", None, FileStatus::Modified, false, 3, 1)), "M a.c  +3 -1");
    assert_eq!(file_line(&entry("b.c", Some("a.c"), FileStatus::Renamed, false, 0, 0)), "R a.c -> b.c  +0 -0");
    assert_eq!(file_line(&entry("img.png", None, FileStatus::Added, true, 0, 0)), "A img.png  binary");
    assert_eq!(file_line(&entry("x", None, FileStatus::Deleted, false, 0, 9)), "D x  +0 -9");
    assert_eq!(file_line(&entry("y", Some("x"), FileStatus::Copied, false, 1, 0)), "C x -> y  +1 -0");
}

#[test]
fn a_guess_says_so_on_the_boundary_line() {
    let s = series(Vec::new(), boundary(BoundaryKind::Guess, "on origin/main", true));

    assert_eq!(boundary_line(&s), "boundary: guess — on origin/main (a guess: load more to go further)");
}

#[test]
fn a_merge_boundary_names_its_parents() {
    let mut b = boundary(BoundaryKind::Merge, "under the merge 0123456789ab", false);
    b.merge = Some(MergeInfo {
        subject: "Merge branch side".to_owned(),
        parents: vec![
            ParentInfo { commit: "0123456789abcdef".to_owned(), name: "main".to_owned(), remote: true },
            ParentInfo { commit: "fedcba9876543210".to_owned(), name: "side".to_owned(), remote: false },
        ],
    });
    let s = series(Vec::new(), b);

    assert_eq!(
        boundary_line(&s),
        "boundary: merge — under the merge 0123456789ab\n          Merge branch side\n          0123456789ab main  |  fedcba987654 side"
    );
}

#[test]
fn the_report_lists_each_change_with_its_files() {
    let s = series(
        vec![
            change("not-committed", "ffff", "the work in progress", None, true),
            change("I1", "0123456789abcdef", "with an id", Some("I1"), false),
            change("sha-abc", "abc", "without an id", None, false),
        ],
        boundary(BoundaryKind::Base, "--base", false),
    );
    let files = vec![ChangeFiles { key: "I1".to_owned(), files: vec![entry("a.c", None, FileStatus::Modified, false, 2, 0)] }];

    let expected = [
        "repository  /src/proj",
        "remote      example.com/proj",
        "id          proj-1",
        "",
        "  1. not committed  the work in progress",
        "     not-committed  ",
        "",
        "  2. 0123456789ab  with an id",
        "     I1  ",
        "     M a.c  +2 -0",
        "",
        "  3. abc  without an id",
        "     sha-abc  (no Change-Id: an amend loses the comments)",
        "",
        "boundary: base — --base",
        "",
    ]
    .join("\n");
    assert_eq!(render(&s, &files), expected);
}

#[test]
fn an_empty_series_says_so() {
    let mut s = series(Vec::new(), boundary(BoundaryKind::Merge, "under the merge 0123456789ab", false));
    s.repo.remote = None;
    let out = render(&s, &[]);

    assert!(out.contains("No change is loaded."), "{out}");
    assert!(out.contains("boundary: merge"), "{out}");
    assert_eq!(
        out,
        "repository  /src/proj\nid          proj-1\n\nNo change is loaded.\nboundary: merge — under the merge 0123456789ab\n"
    );
}
