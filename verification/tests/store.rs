use qreview::store::model::{ChangeFile, VERSION};
use qreview::store::{safe, stamped, state_home, Store};

#[test]
fn a_key_is_kept_as_it_is_when_it_is_a_plain_name() {
    assert_eq!(safe("I8f3a-b_c"), "I8f3a-b_c");
    assert_eq!(safe("sha-0123abcd"), "sha-0123abcd");
}

#[test]
fn a_key_that_climbs_out_becomes_underscores() {
    assert_eq!(safe("../../escape"), "______escape");
    assert_eq!(safe("a/b.c d"), "a_b_c_d");
    assert_eq!(safe("é"), "_");
}

#[test]
fn a_corrupt_key_is_filed_inside_the_changes_directory() {
    let store = Store::at("/state/repo");

    assert_eq!(store.changes, "/state/repo/changes");
    assert_eq!(store.path_of("../../escape"), "/state/repo/changes/______escape.json");
    assert_eq!(store.path_of("I8f3a"), "/state/repo/changes/I8f3a.json");
}

#[test]
fn the_store_of_a_repository_is_under_its_id() {
    let store = Store::open("github.com-x-y-1a2b", "/home/u/.local/state/");

    assert_eq!(store.changes, "/home/u/.local/state/qreview/repos/github.com-x-y-1a2b/changes");
}

#[test]
fn the_state_directory_follows_xdg_then_home() {
    assert_eq!(state_home(Some("/xdg".to_owned()), Some("/home/u".to_owned())), "/xdg");
    assert_eq!(state_home(Some(String::new()), Some("/home/u".to_owned())), "/home/u/.local/state");
    assert_eq!(state_home(None, Some("/home/u/".to_owned())), "/home/u/.local/state");
    assert_eq!(state_home(None, None), ".qreview-state");
}

#[test]
fn a_file_of_an_older_format_is_stamped_with_the_current_one() {
    let mut file = ChangeFile::new("I8f3a", "s");
    file.version = 1;
    let out = stamped("/x/I8f3a.json", file.clone()).unwrap();

    assert_eq!(out.version, VERSION);
    assert_eq!(out.key, file.key);
    assert_eq!(out.comments, file.comments);
}

#[test]
fn a_file_of_a_newer_format_is_refused_and_names_itself() {
    let mut file = ChangeFile::new("I8f3a", "s");
    file.version = 99;
    let error = stamped("/x/I8f3a.json", file).unwrap_err();

    assert_eq!(error, "/x/I8f3a.json was written by a newer qreview (format 99, this one reads 3)");
}
