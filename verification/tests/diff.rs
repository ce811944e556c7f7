use qreview::diff::parse::{first_word_of, read_ranges, split_header, strip_side, unquote};
use qreview::diff::{parse_files, parse_numstat, parse_raw};
use qreview::model::FileStatus;

fn chars(s: &str) -> Vec<char> {
    s.chars().collect()
}

fn text(v: &[char]) -> String {
    v.iter().collect()
}

fn fields(s: &str) -> Vec<Vec<char>> {
    s.split('\0').filter(|f| !f.is_empty()).map(chars).collect()
}

const STREAM: &str = ":100644 100644 aaa bbb M\0a.c\0\
:000000 100644 000 ccc A\0new.txt\0\
:100644 100644 ddd ddd R100\0old.c\0renamed.c\0\
:100644 100644 eee fff M\0img.png\0\
3\t1\ta.c\0\
5\t0\tnew.txt\0\
0\t0\t\0old.c\0renamed.c\0\
-\t-\timg.png\0";

#[test]
fn the_file_list_joins_the_statuses_to_the_counts() {
    let entries = parse_files(STREAM);
    let got: Vec<(&str, Option<&str>, FileStatus, bool, usize, usize)> = entries
        .iter()
        .map(|e| (e.path.as_str(), e.old_path.as_deref(), e.status, e.binary, e.added, e.removed))
        .collect();

    assert_eq!(
        got,
        [
            ("a.c", None, FileStatus::Modified, false, 3, 1),
            ("new.txt", None, FileStatus::Added, false, 5, 0),
            ("renamed.c", Some("old.c"), FileStatus::Renamed, false, 0, 0),
            ("img.png", None, FileStatus::Modified, true, 0, 0),
        ]
    );
}

#[test]
fn the_raw_block_ends_where_the_counts_begin() {
    let fs = fields(STREAM);
    let (raw, end) = parse_raw(&fs);

    assert_eq!(raw.len(), 4);
    assert_eq!(raw[2], (FileStatus::Renamed, Some("old.c".to_owned()), "renamed.c".to_owned()));
    assert_eq!(raw[1], (FileStatus::Added, None, "new.txt".to_owned()));
    assert_eq!(end, 9);
    assert_eq!(text(&fs[end]), "3\t1\ta.c");

    let counted = parse_numstat(&fs, end);
    assert_eq!(counted.len(), 4);
    assert_eq!(counted[2].old_path.as_deref(), Some("old.c"));
    assert_eq!(counted[2].status, FileStatus::Modified);
}

#[test]
fn an_empty_stream_has_no_file() {
    assert!(parse_files("").is_empty());
}

#[test]
fn a_quoted_path_is_read_back() {
    assert_eq!(text(&unquote(&chars("\"a\\tb\\\"c\\\\d\\x\""))), "a\tb\"c\\d\\x");
    assert_eq!(text(&unquote(&chars("plain.c\t"))), "plain.c");
}

#[test]
fn a_side_names_its_path_or_nothing() {
    assert_eq!(strip_side(&chars("a/src/x.c")).map(|v| text(&v)), Some("src/x.c".to_owned()));
    assert_eq!(strip_side(&chars("b/src/x.c\t")).map(|v| text(&v)), Some("src/x.c".to_owned()));
    assert_eq!(strip_side(&chars("/dev/null")), None);
}

#[test]
fn the_header_names_both_paths() {
    let (old, new) = split_header(&chars("a/one.c b/two.c"));

    assert_eq!(old.map(|v| text(&v)), Some("one.c".to_owned()));
    assert_eq!(new.map(|v| text(&v)), Some("two.c".to_owned()));
}

#[test]
fn a_hunk_header_names_two_ranges() {
    assert_eq!(read_ranges(&chars("-1,3 +1,4")), Some(((1, 3), (1, 4))));
    assert_eq!(read_ranges(&chars("-7 +0,0")), Some(((7, 1), (0, 0))));
    assert_eq!(read_ranges(&chars("-1,3")), None);

    let (w, rest) = first_word_of(&chars("one two")).unwrap();
    assert_eq!((text(&w), text(&rest)), ("one".to_owned(), " two".to_owned()));
}

use qreview::diff::{FileLists, How};
use qreview::model::FileEntry;

fn listed(path: &str) -> Vec<FileEntry> {
    vec![FileEntry {
        path: path.to_owned(),
        old_path: None,
        status: FileStatus::Modified,
        language: String::new(),
        binary: false,
        added: 1,
        removed: 0,
    }]
}

#[test]
fn a_file_list_is_kept_by_its_trees_and_the_spacing_option() {
    let mut lists = FileLists::new();
    let how = How::default();
    let mut ws = How::default();
    ws.ignore_ws = true;
    let mut more_context = How::default();
    more_context.context = 99;

    assert_eq!(FileLists::key("b", "r", &ws), "b r true");
    assert!(lists.get("b", "r", &how).is_none());
    lists.keep("b", "r", &how, &listed("a.c"));
    assert_eq!(lists.get("b", "r", &how), Some(listed("a.c")));
    assert_eq!(lists.get("b", "r", &more_context), Some(listed("a.c")), "only -w changes which files differ");
    assert!(lists.get("b", "r", &ws).is_none());
    assert_eq!(lists.count(), 1);
}

#[test]
fn a_later_list_replaces_the_one_kept_under_its_key() {
    let mut lists = FileLists::default();
    let how = How::default();
    lists.keep("b", "r", &how, &listed("a.c"));
    lists.keep("b", "s", &how, &listed("x.c"));
    lists.keep("b", "r", &how, &listed("b.c"));

    assert_eq!(lists.get("b", "r", &how), Some(listed("b.c")));
    assert_eq!(lists.get("b", "s", &how), Some(listed("x.c")));
    assert_eq!(lists.count(), 2);
}

use qreview::diff::parse::fits;

#[test]
fn an_ordinary_patch_fits_the_machine_integers() {
    let patch = "diff --git a/x b/x\n--- a/x\n+++ b/x\n@@ -1,2 +1,2 @@\n a\n-b\n+c\n";
    assert!(fits(patch));
    assert!(fits(""));
    let at_the_top = format!("diff --git a/x b/x\n@@ -{} +1 @@\n a\n", usize::MAX);
    assert!(!fits(&at_the_top), "a hunk that starts at the top of usize cannot count on");
}
