use qreview::model::ChangeSummary;
use qreview::reflog::{entries, owner_of};

fn summary(key: &str, subject: &str, commit: &str, change_id: Option<&str>) -> ChangeSummary {
    ChangeSummary {
        key: key.to_owned(),
        change_id: change_id.map(str::to_owned),
        subject: subject.to_owned(),
        author: "T".to_owned(),
        commit: commit.to_owned(),
        patch_set_count: 1,
        comment_count: 0,
        reviewed: false,
        is_merge: false,
        worktree: false,
    }
}

#[test]
fn the_reflog_names_each_commit_once() {
    let text = "aaa\0first\nbbb\0second\naaa\0first again\nno separator\n";

    assert_eq!(
        entries(text),
        [("aaa".to_owned(), "first".to_owned()), ("bbb".to_owned(), "second".to_owned())]
    );
}

#[test]
fn the_version_before_an_amend_belongs_to_its_change() {
    let changes = vec![summary("sha-new", "work: no id", "new", None)];

    assert_eq!(owner_of(&changes, "old", "work: no id"), Some(0));
    assert_eq!(owner_of(&changes, "new", "work: no id"), None, "a commit of the series");
}

#[test]
fn a_change_that_carries_a_change_id_is_left_alone() {
    let changes = vec![summary("Iwork", "work", "new", Some("Iwork"))];

    assert_eq!(owner_of(&changes, "old", "work"), None);
}

#[test]
fn a_subject_two_changes_share_names_neither() {
    let changes = vec![summary("sha-one", "s", "one", None), summary("sha-two", "s", "two", None)];

    assert_eq!(owner_of(&changes, "old", "s"), None);
}
