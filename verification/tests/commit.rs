use qreview::git::commit::{is_object_name, iso_utc, parse, CommitInfo};

#[test]
fn only_a_full_hash_names_an_object() {
    assert!(is_object_name("4888eaa8f1c2d3e4f5a6b7c8d9e0f1a2b3c4d5e6"));
    assert!(!is_object_name("HEAD"));
    assert!(!is_object_name("main"));
    assert!(!is_object_name("4888eaa8"));
    assert!(!is_object_name("4888eaa8f1c2d3e4f5a6b7c8d9e0f1a2b3c4d5e6^"));
    assert!(!is_object_name("zzzzeaa8f1c2d3e4f5a6b7c8d9e0f1a2b3c4d5e6"));
}

fn info(message: &str, parents: &[&str]) -> CommitInfo {
    CommitInfo {
        hash: "h".to_owned(),
        parents: parents.iter().map(|p| (*p).to_owned()).collect(),
        author: "T".to_owned(),
        email: "t@e".to_owned(),
        date: String::new(),
        subject: "work".to_owned(),
        message: message.to_owned(),
    }
}

#[test]
fn the_change_id_is_read_from_the_trailer() {
    assert_eq!(info("work\n\nChange-Id: I1234", &[]).change_id().as_deref(), Some("I1234"));
    assert_eq!(info("work", &[]).change_id(), None);
}

#[test]
fn a_commit_with_no_change_id_is_keyed_by_its_hash() {
    assert_eq!(info("work", &[]).key(), "sha-h");
    assert_eq!(info("work\n\nChange-Id: I1234", &[]).key(), "I1234");
}

#[test]
fn a_commit_with_two_parents_is_a_merge() {
    assert!(info("m", &["a", "b"]).is_merge());
    assert!(!info("m", &["a"]).is_merge());
}

#[test]
fn the_epoch_is_written_in_utc() {
    assert_eq!(iso_utc("0"), "1970-01-01T00:00:00Z");
    assert_eq!(iso_utc("1000000000"), "2001-09-09T01:46:40Z");
}

#[test]
fn an_empty_log_is_no_commit() {
    assert!(parse("").is_empty());
}

use qreview::git::merge::{brought_in, merge_tree_of, parent_of};

fn merge_commit(parents: &[&str]) -> CommitInfo {
    CommitInfo {
        hash: "m".to_owned(),
        parents: parents.iter().map(|p| (*p).to_owned()).collect(),
        author: "A".to_owned(),
        email: "a@example.com".to_owned(),
        date: "2024-01-01T00:00:00Z".to_owned(),
        subject: "Merge".to_owned(),
        message: "Merge\n".to_owned(),
    }
}

#[test]
fn the_tree_of_a_merge_is_the_first_line_when_it_is_a_hash() {
    let tree = "0123456789abcdef0123456789abcdef01234567";
    assert_eq!(merge_tree_of(&format!("{tree}\nCONFLICT (content)\n")), Some(tree.to_owned()));
    assert_eq!(merge_tree_of("fatal: not a merge\n"), None);
    assert_eq!(merge_tree_of(""), None);
}

#[test]
fn a_parent_is_counted_from_one() {
    let m = merge_commit(&["p1", "p2"]);
    assert_eq!(parent_of(&m, 0), Some("p1".to_owned()));
    assert_eq!(parent_of(&m, 1), Some("p1".to_owned()));
    assert_eq!(parent_of(&m, 2), Some("p2".to_owned()));
    assert_eq!(parent_of(&m, 3), None);
}

#[test]
fn a_merge_brings_in_the_second_parent_over_the_first() {
    assert_eq!(brought_in(&merge_commit(&["p1", "p2"])), Some("p1..p2".to_owned()));
    assert_eq!(brought_in(&merge_commit(&["p1"])), None);
}

use qreview::git::commit::{branch_in, parse_i64_chars, parse_one};

#[test]
fn one_record_of_the_log_is_one_commit() {
    let record: Vec<char> = "abc123 \0p1 p2\0Ann\0ann@example.com\01700000000\0Fix it\0Fix it\n\nChange-Id: I9\n".chars().collect();
    let c = parse_one(&record).unwrap();

    assert_eq!(c.hash, "abc123");
    assert_eq!(c.parents, ["p1", "p2"]);
    assert_eq!(c.author, "Ann");
    assert_eq!(c.email, "ann@example.com");
    assert_eq!(c.date, "2023-11-14T22:13:20Z");
    assert_eq!(c.subject, "Fix it");
    assert_eq!(c.change_id().as_deref(), Some("I9"));
    assert!(c.is_merge());

    let short: Vec<char> = "abc\0p\0Ann".chars().collect();
    assert!(parse_one(&short).is_none());
}

#[test]
fn a_signed_number_reads_as_str_reads_it() {
    let n = |s: &str| parse_i64_chars(&s.chars().collect::<Vec<char>>());
    assert_eq!(n("-42"), Some(-42));
    assert_eq!(n("+7"), Some(7));
    assert_eq!(n("-9223372036854775808"), Some(i64::MIN));
    assert_eq!(n("9223372036854775808"), None);
    assert_eq!(n("-"), None);
    assert_eq!(n("1 "), None);
}

#[test]
fn the_branch_file_names_its_first_line_that_is_not_a_remark() {
    assert_eq!(branch_in("# the integration branch\n\n  rel-3.0 \nmain\n"), Some("rel-3.0".to_owned()));
    assert_eq!(branch_in("# nothing\n"), None);
}
