use qreview::gerrit::answer::PatchSet as Pushed;
use qreview::git::commit::CommitInfo;
use qreview::model::ChangeSummary;
use qreview::patchset::{merge_gerrit, of_change, same_base, unclaimed, Origin, PatchSet};

fn summary(commit: &str, change_id: Option<&str>) -> ChangeSummary {
    ChangeSummary {
        key: change_id.unwrap_or(commit).to_owned(),
        change_id: change_id.map(str::to_owned),
        subject: "work".to_owned(),
        author: "T".to_owned(),
        commit: commit.to_owned(),
        patch_set_count: 1,
        comment_count: 0,
        reviewed: false,
        is_merge: false,
        worktree: false,
    }
}

fn named(hash: &str, change_id: Option<&str>) -> CommitInfo {
    let trailer = change_id.map(|id| format!("\n\nChange-Id: {id}")).unwrap_or_default();

    CommitInfo {
        hash: hash.to_owned(),
        parents: Vec::new(),
        author: "T".to_owned(),
        email: "t@e".to_owned(),
        date: String::new(),
        subject: "work".to_owned(),
        message: format!("work{trailer}"),
    }
}

#[test]
fn a_prev_with_the_change_id_of_a_change_is_claimed() {
    let changes = [summary("new", Some("Iwork"))];
    let prevs = [named("old", Some("Iwork"))];

    assert!(unclaimed(&prevs, &changes).is_empty());
}

#[test]
fn a_prev_that_is_a_commit_of_the_series_is_claimed() {
    let changes = [summary("here", None)];
    let prevs = [named("here", None)];

    assert!(unclaimed(&prevs, &changes).is_empty());
}

#[test]
fn a_prev_whose_change_id_names_nothing_here_is_unclaimed() {
    let changes = [summary("new", Some("Ifresh"))];
    let prevs = [named("old", Some("Ibefore"))];

    let lost = unclaimed(&prevs, &changes);
    assert_eq!(lost.len(), 1);
    assert_eq!(lost[0].hash, "old");
}

#[test]
fn a_prev_with_no_change_id_is_unclaimed() {
    let changes = [summary("new", Some("Iwork"))];
    let prevs = [named("old", None)];

    assert_eq!(unclaimed(&prevs, &changes).len(), 1);
}

fn remote(number: usize, revision: &str) -> Pushed {
    Pushed {
        number,
        revision: revision.to_owned(),
        git_ref: format!("refs/changes/21/12321/{number}"),
        created_on: 0,
        kind: "REWORK".to_owned(),
        comments: Vec::new(),
    }
}

fn local(commit: &str) -> PatchSet {
    PatchSet {
        number: 1,
        commit: commit.to_owned(),
        parent: None,
        origin: Origin::Local,
        created_at: String::new(),
        subject: "mine".to_owned(),
        gerrit_ref: None,
        available: true,
    }
}

#[test]
fn gerrit_owns_the_numbering() {
    let merged = merge_gerrit(vec![local("local")], &[remote(1, "aaa"), remote(2, "bbb")]);

    assert_eq!(merged.len(), 3);
    assert_eq!(merged[0].number, 1);
    assert_eq!(merged[0].origin, Origin::Gerrit);
    assert!(!merged[0].available, "a pushed version is not here yet");
    assert_eq!(merged[2].number, 3, "the local commit comes after them");
    assert_eq!(merged[2].origin, Origin::Local);
}

#[test]
fn a_local_commit_that_gerrit_has_keeps_its_number() {
    let merged = merge_gerrit(vec![local("bbb")], &[remote(1, "aaa"), remote(2, "bbb")]);

    assert_eq!(merged.len(), 2);
    assert_eq!(merged[1].number, 2);
    assert_eq!(merged[1].origin, Origin::Local, "it is here, so no fetch");
    assert!(merged[1].available);
    assert_eq!(merged[1].gerrit_ref.as_deref(), Some("refs/changes/21/12321/2"));
}

fn pushed(number: usize, revision: &str, created_on: i64) -> Pushed {
    Pushed { created_on, ..remote(number, revision) }
}

fn version(commit: &str, when: &str, origin: Origin) -> PatchSet {
    PatchSet {
        number: 0,
        commit: commit.to_owned(),
        parent: None,
        origin,
        created_at: when.to_owned(),
        subject: "work".to_owned(),
        gerrit_ref: None,
        available: true,
    }
}

#[test]
fn the_commit_under_review_is_the_last_version() {
    let local = vec![
        version("older", "2001-01-01T00:00:00Z", Origin::Prev),
        version("head", "2002-01-01T00:00:00Z", Origin::Local),
    ];
    let merged = merge_gerrit(local, &[pushed(1, "pushed", 1_000_000_000), remote(2, "head")]);

    let order: Vec<&str> = merged.iter().map(|set| set.commit.as_str()).collect();
    assert_eq!(order, ["older", "pushed", "head"]);
    assert_eq!(merged[2].origin, Origin::Local, "the one being reviewed");
    assert_eq!(merged[1].number, 1, "Gerrit still owns its numbering");
    assert_eq!(merged[2].number, 2);
}

#[test]
fn a_version_gerrit_never_saw_takes_a_number_past_the_highest() {
    let local = vec![
        version("older", "2001-01-01T00:00:00Z", Origin::Prev),
        version("head", "2002-01-01T00:00:00Z", Origin::Local),
    ];
    let merged = merge_gerrit(local, &[pushed(1, "pushed", 1_000_000_000), remote(2, "head")]);

    assert_eq!(merged[0].commit, "older");
    assert_eq!(merged[0].number, 3);
    assert!(merged[0].gerrit_ref.is_none());
}

#[test]
fn a_version_only_gerrit_has_carries_the_date_it_was_pushed() {
    let merged = merge_gerrit(
        vec![version("head", "2002-01-01T00:00:00Z", Origin::Local)],
        &[remote(1, "pushed"), remote(2, "head")],
    );

    assert_eq!(merged[0].commit, "pushed");
    assert_eq!(merged[0].created_at, "1970-01-01T00:00:00Z");
}

#[test]
fn no_answer_from_gerrit_leaves_the_local_list_alone() {
    let local = vec![local("local")];

    assert_eq!(merge_gerrit(local.clone(), &[]), local);
}

fn with_parent(hash: &str, parent: &str, change_id: &str) -> CommitInfo {
    CommitInfo { parents: vec![parent.to_owned()], ..named(hash, Some(change_id)) }
}

#[test]
fn the_local_commit_is_the_last_of_its_versions() {
    let head = with_parent("second", "base", "I8f3ac21");
    let first = with_parent("first", "base", "I8f3ac21");

    let sets = of_change(&head, vec![first]);

    assert_eq!(sets.len(), 2);
    assert_eq!((sets[0].number, sets[0].commit.as_str(), sets[0].origin), (1, "first", Origin::Prev));
    assert_eq!((sets[1].number, sets[1].commit.as_str(), sets[1].origin), (2, "second", Origin::Local));
    assert!(same_base(&sets[0], &sets[1]), "an amend keeps the parent");
}

#[test]
fn a_version_of_another_change_is_left_out_and_a_repeat_counts_once() {
    let head = with_parent("mine", "base", "Imine");
    let other = with_parent("other", "base", "Iother");
    let first = with_parent("first", "base", "Imine");

    assert_eq!(of_change(&head, vec![other]).len(), 1);
    assert_eq!(of_change(&head, vec![first.clone(), first]).len(), 2);
}

#[test]
fn a_rebase_moves_the_base_and_it_shows() {
    let head = with_parent("second", "base two", "Iwork");
    let first = with_parent("first", "base one", "Iwork");

    let sets = of_change(&head, vec![first]);
    assert_eq!(sets.len(), 2);
    assert!(!same_base(&sets[0], &sets[1]), "the parents differ, so a diff between them carries the rebase");
}

use qreview::patchset::text_before;

#[test]
fn texts_are_ordered_as_str_orders_them() {
    assert!(text_before("2024-01-01", "2024-01-02"));
    assert!(text_before("abc", "abcd"));
    assert!(!text_before("abc", "abc"));
    assert!(!text_before("b", "abc"));
    assert!(text_before("B", "a"));
}
