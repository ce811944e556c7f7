use qreview::comments::{
    anchor_start, compose, context_of, counts, delete, edit, edit_at, fill, hash_line, mark, new_id, says_nothing,
    Counts, EditComment, NewComment,
};
use qreview::store::model::{Anchor, ChangeFile, Comment, Scope, Side};

fn new_comment(scope: Scope, file: Option<&str>, start: Option<usize>, body: &str) -> NewComment {
    NewComment {
        scope,
        file: file.map(str::to_owned),
        side: None,
        start_line: start,
        end_line: None,
        start_char: None,
        end_char: None,
        body: body.to_owned(),
    }
}

fn comment(id: &str, body: &str) -> Comment {
    Comment {
        id: id.to_owned(),
        patch_set: 1,
        commit: "c1".to_owned(),
        created_at: "2024-01-01T00:00:00Z".to_owned(),
        updated_at: "2024-01-01T00:00:00Z".to_owned(),
        scope: Scope::Change,
        body: body.to_owned(),
        anchor: None,
    }
}

fn file_with(ids: &[(&str, &str)]) -> ChangeFile {
    let mut f = ChangeFile::new("I123", "a subject");
    for (id, body) in ids {
        f.comments.push(comment(id, body));
    }
    f
}

#[test]
fn a_comment_is_written_with_its_text_trimmed_at_the_end() {
    let new = new_comment(Scope::Change, None, None, "  looks good  \n");
    let c = compose(new, "c-1".to_owned(), 2, "abc".to_owned(), "now".to_owned(), None).unwrap();

    assert_eq!(c.id, "c-1");
    assert_eq!(c.patch_set, 2);
    assert_eq!(c.commit, "abc");
    assert_eq!(c.created_at, "now");
    assert_eq!(c.updated_at, "now");
    assert_eq!(c.body, "  looks good");
    assert_eq!(c.scope, Scope::Change);
    assert_eq!(c.anchor, None);
}

#[test]
fn a_comment_with_no_text_is_refused() {
    let new = new_comment(Scope::Change, None, None, " \n\t ");
    let out = compose(new, "c-1".to_owned(), 1, "abc".to_owned(), "now".to_owned(), None);

    assert_eq!(out, Err("a comment with no text says nothing".to_owned()));
    assert!(says_nothing("  \n"));
    assert!(!says_nothing(" x "));
}

#[test]
fn an_anchor_starts_from_what_the_comment_names() {
    let a = anchor_start(&new_comment(Scope::Line, Some("src/a.c"), Some(4), "x")).unwrap();

    assert_eq!(a.file, "src/a.c");
    assert_eq!(a.side, Side::New);
    assert_eq!(a.start_line, Some(4));
    assert_eq!(a.end_line, Some(4));
    assert_eq!(a.blob, None);
    assert_eq!(a.line_hash, None);
    assert!(a.context.is_empty());
}

#[test]
fn a_comment_on_a_file_has_no_line() {
    let mut new = new_comment(Scope::File, Some("src/a.c"), Some(4), "x");
    new.side = Some(Side::Old);
    let a = anchor_start(&new).unwrap();

    assert_eq!(a.side, Side::Old);
    assert_eq!(a.start_line, None);
    assert_eq!(a.end_line, None);
}

#[test]
fn an_anchor_without_a_file_or_a_line_is_refused() {
    let no_file = anchor_start(&new_comment(Scope::Line, None, Some(1), "x"));
    let no_line = anchor_start(&new_comment(Scope::Range, Some("a.c"), None, "x"));

    assert_eq!(no_file, Err("a comment on a line or a file must name the file".to_owned()));
    assert_eq!(no_line, Err("a comment on a line needs the line".to_owned()));
}

#[test]
fn the_anchor_is_filled_from_the_lines_it_was_read_in() {
    let mut a = anchor_start(&new_comment(Scope::Line, Some("a.txt"), Some(5), "x")).unwrap();
    fill(&mut a, Some("blob1".to_owned()), "l1\nl2\nl3\nl4\nl5  \nl6\nl7\nl8\nl9\n");

    assert_eq!(a.blob.as_deref(), Some("blob1"));
    assert_eq!(a.line_hash, Some(hash_line("l5")));
    assert_eq!(a.context, ["l2", "l3", "l4", "l5  ", "l6", "l7", "l8"]);
}

#[test]
fn the_commit_message_has_no_blob_and_a_short_text_a_short_context() {
    let mut a = anchor_start(&new_comment(Scope::Line, Some("/COMMIT_MSG"), Some(1), "x")).unwrap();
    fill(&mut a, None, "subject\n\nbody\n");

    assert_eq!(a.blob, None);
    assert_eq!(a.line_hash, Some(hash_line("subject")));
    assert_eq!(a.context, ["subject", "", "body"]);
}

#[test]
fn the_context_keeps_three_lines_on_each_side() {
    let lines = ["a", "b", "c", "d", "e", "f", "g", "h"];

    assert_eq!(context_of(&lines, 1), ["a", "b", "c", "d"]);
    assert_eq!(context_of(&lines, 5), ["b", "c", "d", "e", "f", "g", "h"]);
    assert_eq!(context_of(&lines, 8), ["e", "f", "g", "h"]);
}

#[test]
fn a_new_id_is_eight_random_bytes_in_hexadecimal() {
    let id = new_id().unwrap();

    assert!(id.starts_with("c-"));
    assert_eq!(id.len(), 2 + 16);
    assert!(id[2..].chars().all(|c| c.is_ascii_hexdigit() && !c.is_ascii_uppercase()));
    assert_ne!(new_id().unwrap(), id);
}

#[test]
fn the_counts_of_a_review_that_could_not_be_read_are_zero() {
    let f = file_with(&[("c-1", "a"), ("c-2", "b")]);

    assert_eq!(counts(Some(&f)), Counts { total: 2, reviewed: false });
    assert_eq!(counts(None), Counts { total: 0, reviewed: false });
}

#[test]
fn a_mark_changes_the_mark_and_nothing_else() {
    let mut f = file_with(&[("c-1", "a")]);
    let before = f.clone();

    assert!(mark(&mut f, true));
    assert!(f.reviewed);
    assert_eq!(f.comments, before.comments);
    assert!(!mark(&mut f, false));
    assert_eq!(f, before);
}

#[test]
fn an_edit_changes_the_text_and_the_time_of_one_comment() {
    let mut f = file_with(&[("c-1", "a"), ("c-2", "b"), ("c-3", "c")]);
    let out = edit_at(&mut f, "c-2", EditComment { body: Some("new text \n".to_owned()) }, "later".to_owned()).unwrap();

    assert_eq!(out.body, "new text");
    assert_eq!(out.updated_at, "later");
    assert_eq!(out.created_at, "2024-01-01T00:00:00Z");
    assert_eq!(f.comments[1], out);
    assert_eq!(f.comments[0], comment("c-1", "a"));
    assert_eq!(f.comments[2], comment("c-3", "c"));
}

#[test]
fn an_edit_without_a_text_only_touches_the_time() {
    let mut f = file_with(&[("c-1", "a")]);
    let out = edit_at(&mut f, "c-1", EditComment { body: None }, "later".to_owned()).unwrap();

    assert_eq!(out.body, "a");
    assert_eq!(out.updated_at, "later");
}

#[test]
fn an_edit_of_an_unknown_id_or_to_no_text_is_refused() {
    let mut f = file_with(&[("c-1", "a")]);
    let before = f.clone();

    assert_eq!(edit(&mut f, "c-9", EditComment { body: Some("x".to_owned()) }), Err("no comment c-9".to_owned()));
    assert_eq!(
        edit(&mut f, "c-1", EditComment { body: Some("  ".to_owned()) }),
        Err("a comment with no text says nothing. Delete it instead".to_owned())
    );
    assert_eq!(f, before);
}

#[test]
fn an_edit_now_keeps_the_id() {
    let mut f = file_with(&[("c-1", "a")]);
    let out = edit(&mut f, "c-1", EditComment { body: Some("b".to_owned()) }).unwrap();

    assert_eq!(out.id, "c-1");
    assert_eq!(f.comments[0].body, "b");
}

#[test]
fn deleting_keeps_the_others_in_their_order() {
    let mut f = file_with(&[("c-1", "a"), ("c-2", "b"), ("c-3", "c"), ("c-2", "d")]);

    assert_eq!(delete(&mut f, "c-2"), Ok(2));
    let ids: Vec<&str> = f.comments.iter().map(|c| c.id.as_str()).collect();
    assert_eq!(ids, ["c-1", "c-3"]);
    assert_eq!(f.key, "I123");
}

#[test]
fn deleting_an_unknown_id_is_refused() {
    let mut f = file_with(&[("c-1", "a")]);

    assert_eq!(delete(&mut f, "c-2"), Err("no comment c-2".to_owned()));
    assert_eq!(f.comments.len(), 1);
}

#[test]
fn an_anchor_compares_field_by_field() {
    let a = Anchor {
        file: "a".to_owned(),
        side: Side::New,
        start_line: Some(1),
        end_line: Some(1),
        start_char: None,
        end_char: None,
        blob: None,
        line_hash: None,
        context: Vec::new(),
    };
    assert_eq!(a.clone(), a);
}

use qreview::comments::{in_reading_order, live_comments, of_version, reviewed_keys};
use qreview::model::ChangeSummary;

fn on_version(id: &str, commit: &str) -> Comment {
    let mut c = comment(id, "x");
    c.commit = commit.to_owned();
    c
}

#[test]
fn only_the_comments_of_the_version_under_review_are_live() {
    let cs = vec![on_version("c-1", "v2"), on_version("c-2", "v1"), on_version("c-3", ""), on_version("c-4", "v2")];
    let (live, earlier) = live_comments(&cs, "v2");

    let ids: Vec<&str> = live.iter().map(|c| c.id.as_str()).collect();
    assert_eq!(ids, ["c-1", "c-3", "c-4"]);
    assert_eq!(earlier, 1);
    assert!(of_version(&cs[2], "anything"));
    assert!(!of_version(&cs[1], "v2"));
}

fn summary(key: &str, commit: &str) -> ChangeSummary {
    ChangeSummary {
        key: key.to_owned(),
        change_id: None,
        subject: String::new(),
        author: String::new(),
        commit: commit.to_owned(),
        patch_set_count: 1,
        comment_count: 0,
        reviewed: false,
        is_merge: false,
        worktree: false,
    }
}

#[test]
fn an_export_covers_the_changes_with_live_comments_oldest_first() {
    let changes = vec![summary("I3", "c3"), summary("I2", "c2"), summary("I1", "c1")];
    let mut f3 = ChangeFile::new("I3", "s");
    f3.comments.push(on_version("a", "c3"));
    let mut f2 = ChangeFile::new("I2", "s");
    f2.comments.push(on_version("b", "older"));
    let mut f1 = ChangeFile::new("I1", "s");
    f1.comments.push(on_version("c", ""));

    assert_eq!(reviewed_keys(&changes, &vec![f3, f2, f1]), ["I1", "I3"]);
}

fn at(id: &str, scope: Scope, file: Option<&str>, line: Option<usize>) -> Comment {
    let mut c = comment(id, "x");
    c.scope = scope;
    c.anchor = file.map(|f| Anchor {
        file: f.to_owned(),
        side: Side::New,
        start_line: line,
        end_line: line,
        start_char: None,
        end_char: None,
        blob: None,
        line_hash: None,
        context: Vec::new(),
    });
    c
}

#[test]
fn comments_are_read_change_first_then_file_by_file_from_the_top() {
    let mut cs = vec![
        at("b9", Scope::Line, Some("b.c"), Some(9)),
        at("a5", Scope::Line, Some("a.c"), Some(5)),
        at("whole", Scope::Change, None, None),
        at("a-file", Scope::File, Some("a.c"), None),
        at("a2", Scope::Line, Some("a.c"), Some(2)),
        at("a5-again", Scope::Range, Some("a.c"), Some(5)),
    ];
    in_reading_order(&mut cs);

    let ids: Vec<&str> = cs.iter().map(|c| c.id.as_str()).collect();
    assert_eq!(ids, ["whole", "a-file", "a2", "a5", "a5-again", "b9"]);
}

use qreview::comments::{add_to, id_of, stamp_of};

#[test]
fn a_comment_on_the_change_carries_no_anchor_and_is_appended() {
    let mut f = file_with(&[("c-1", "a")]);
    let anchor = anchor_start(&new_comment(Scope::Line, Some("a.c"), Some(3), "x")).unwrap();
    let c = add_to(&mut f, new_comment(Scope::Change, None, None, "overall fine \n"), "c-2".to_owned(), 2, "v2".to_owned(), "now".to_owned(), Some(anchor)).unwrap();

    assert_eq!(c.anchor, None);
    assert_eq!(c.body, "overall fine");
    assert_eq!(c.patch_set, 2);
    assert_eq!(f.comments.len(), 2);
    assert_eq!(f.comments[1], c);
    assert_eq!(f.comments[0].id, "c-1");
}

#[test]
fn a_comment_on_a_line_keeps_its_anchor_and_a_blank_one_is_refused() {
    let mut f = file_with(&[]);
    let anchor = anchor_start(&new_comment(Scope::Line, Some("a.c"), Some(3), "x")).unwrap();
    let c = add_to(&mut f, new_comment(Scope::Line, Some("a.c"), Some(3), "why?"), "c-1".to_owned(), 1, "v1".to_owned(), "now".to_owned(), Some(anchor.clone())).unwrap();
    assert_eq!(c.anchor, Some(anchor.clone()));

    let refused = add_to(&mut f, new_comment(Scope::Line, Some("a.c"), Some(3), "  "), "c-2".to_owned(), 1, "v1".to_owned(), "now".to_owned(), Some(anchor));
    assert_eq!(refused, Err("a comment with no text says nothing".to_owned()));
    assert_eq!(f.comments.len(), 1);
}

#[test]
fn an_id_is_its_bytes_in_hexadecimal() {
    assert_eq!(id_of(&[0x00, 0xab, 0x10, 0xff, 1, 2, 3, 4]), "c-00ab10ff01020304");
    assert_eq!(stamp_of(None), "1970-01-01T00:00:00Z");
    assert_eq!(stamp_of(Some("2024-01-01T00:00:00Z".to_owned())), "2024-01-01T00:00:00Z");
}
