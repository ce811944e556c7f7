use std::sync::Arc;

use qreview::highlight::{class_of, end_of_text, extension, push, spans_of, split_lines, too_large, Highlighter, Step, MAX_BYTES};
use qreview::model::Span;

fn names(v: &[&str]) -> Vec<String> {
    v.iter().map(|s| (*s).to_owned()).collect()
}

#[test]
fn a_class_names_the_first_two_atoms() {
    assert_eq!(class_of(&names(&["source.c", "storage.type.c"])).as_deref(), Some("tok-storage tok-type"));
    assert_eq!(class_of(&names(&["source.c", "comment"])).as_deref(), Some("tok-comment"));
}

#[test]
fn a_scope_that_says_nothing_is_passed_over() {
    assert_eq!(class_of(&names(&["string.quoted", "meta.block.c"])).as_deref(), Some("tok-string tok-quoted"));
    assert_eq!(class_of(&names(&["source.c", "text.plain"])), None);
    assert_eq!(class_of(&Vec::new()), None);
}

#[test]
fn two_touching_spans_of_one_class_become_one() {
    let mut spans = Vec::new();
    push(&mut spans, 0, 3, "a".to_owned());
    push(&mut spans, 3, 5, "a".to_owned());
    push(&mut spans, 5, 6, "b".to_owned());
    push(&mut spans, 7, 8, "b".to_owned());

    let got: Vec<(usize, usize, &str)> = spans.iter().map(|s: &Span| (s.start, s.end, s.cls.as_str())).collect();
    assert_eq!(got, [(0, 5, "a"), (5, 6, "b"), (7, 8, "b")]);
}

fn step(pos: usize, class: Option<&str>) -> Step {
    Step { pos, class: class.map(str::to_owned), applied: true }
}

#[test]
fn the_newline_is_left_out_of_the_last_span() {
    let line = "// a comment\n";
    let end = end_of_text(line);
    let spans = spans_of(end, &vec![step(0, None), step(14, Some("tok-comment"))], Some("tok-comment".to_owned()));

    assert_eq!(end, 12);
    assert_eq!(spans.iter().map(|s| s.end).max(), Some(12));
}

#[test]
fn a_span_runs_between_two_ops() {
    let spans = spans_of(10, &vec![step(2, Some("x")), step(6, Some("y"))], None);
    let got: Vec<(usize, usize, &str)> = spans.iter().map(|s| (s.start, s.end, s.cls.as_str())).collect();

    assert_eq!(got, [(0, 2, "x"), (2, 6, "y")]);
}

#[test]
fn the_end_of_a_line_counts_bytes() {
    assert_eq!(end_of_text("héllo\r\n"), 6);
    assert_eq!(end_of_text(""), 0);
}

#[test]
fn the_extension_is_read_from_the_last_part() {
    assert_eq!(extension("src/a.c"), "c");
    assert_eq!(extension("some.dir/file"), "");
    assert_eq!(extension("archive.tar.gz"), "gz");
}

#[test]
fn a_text_above_the_cap_is_too_large() {
    assert!(too_large(&"int x = 1;\n".repeat(MAX_BYTES / 5)));
    assert!(!too_large("int x = 1;\n"));
}

#[test]
fn a_refused_op_leaves_the_rest_of_the_line_plain() {
    let steps = vec![
        step(2, Some("x")),
        Step { pos: 4, class: Some("y".to_owned()), applied: false },
        step(8, Some("z")),
    ];
    let spans = spans_of(10, &steps, Some("w".to_owned()));
    let got: Vec<(usize, usize, &str)> = spans.iter().map(|s| (s.start, s.end, s.cls.as_str())).collect();

    assert_eq!(got, [(0, 2, "x"), (2, 4, "y"), (2, 10, "w")]);
}

#[test]
fn the_lines_keep_their_newlines() {
    assert_eq!(split_lines("a\nbc\n\nd"), ["a\n", "bc\n", "\n", "d"]);
    assert!(split_lines("").is_empty());
}

fn spans(text: &str, language: Option<&str>, path: &str) -> Vec<Vec<Span>> {
    let mut h = Highlighter::new();

    (*h.lines("blob-of-the-test", text, language, path)).clone()
}

fn classes(line: &[Span], text: &str) -> Vec<(String, String)> {
    line.iter().map(|s| (s.cls.clone(), text[s.start..s.end].to_owned())).collect()
}

#[test]
fn a_keyword_and_a_string_get_their_classes() {
    let text = "int main(void) {\n    return \"hi\";\n}\n";
    let out = spans(text, Some("c"), "a.c");

    let second: Vec<_> = out[1].iter().map(|s| s.cls.clone()).collect();
    assert!(second.iter().any(|c| c.starts_with("tok-keyword")), "no keyword class: {second:?}");
    assert!(second.iter().any(|c| c.starts_with("tok-string")), "no string class: {second:?}");
}

#[test]
fn a_span_is_a_byte_range_of_its_own_line() {
    let text = "int x = 1;\nchar *s = \"héllo\";\n";
    let out = spans(text, Some("c"), "a.c");

    for (index, line) in text.lines().enumerate() {
        for span in &out[index] {
            assert!(line.get(span.start..span.end).is_some(), "line {index} span {span:?} does not slice {line:?}");
        }
    }
}

#[test]
fn the_newline_is_never_inside_a_span() {
    let text = "// a comment\n";
    let out = spans(text, Some("c"), "a.c");
    let longest = out[0].iter().map(|s| s.end).max().unwrap_or(0);

    assert_eq!(longest, "// a comment".len());
}

#[test]
fn a_block_comment_stays_a_comment_on_the_second_line() {
    let text = "/* one\n   two */\nint x;\n";
    let out = spans(text, Some("c"), "a.c");
    let second = classes(&out[1], "   two */");

    assert!(
        second.iter().any(|(cls, _)| cls.starts_with("tok-comment")),
        "the parser must carry the state across lines: {second:?}"
    );
}

#[test]
fn the_language_of_the_map_wins_over_the_extension() {
    let text = "int x = 1;\n";
    let out = spans(text, Some("c"), "net.blk");
    let first: Vec<_> = out[0].iter().map(|s| s.cls.clone()).collect();

    assert!(first.iter().any(|c| c.starts_with("tok-storage") || c.starts_with("tok-keyword")), "{first:?}");
}

#[test]
fn an_unknown_language_is_plain_and_does_not_fail() {
    let out = spans("some text\n", None, "notes.unknown-ext");

    assert_eq!(out.len(), 1);
    assert!(out[0].is_empty(), "{:?}", out[0]);
}

#[test]
fn a_file_above_the_cap_is_not_highlighted() {
    let text = "int x = 1;\n".repeat(MAX_BYTES / 5);
    let out = spans(&text, Some("c"), "big.c");

    assert!(out.is_empty(), "a huge file is shown without colors");
}

#[test]
fn the_cache_answers_the_second_call() {
    let mut h = Highlighter::new();
    let one = h.lines("blob-a", "int x;\n", Some("c"), "a.c");
    let two = h.lines("blob-a", "THIS IS NOT READ", Some("c"), "a.c");

    assert!(Arc::ptr_eq(&one, &two), "the blob hash is the key");
}

#[test]
fn another_blob_is_highlighted_anew() {
    let mut h = Highlighter::new();
    let one = h.lines("blob-a", "int x;\n", Some("c"), "a.c");
    let two = h.lines("blob-b", "int x;\nint y;\n", Some("c"), "a.c");

    assert!(!Arc::ptr_eq(&one, &two));
    assert_eq!(one.len(), 1);
    assert_eq!(two.len(), 2);
}

#[test]
fn an_empty_file_has_no_lines() {
    assert!(spans("", Some("c"), "a.c").is_empty());
}

#[test]
fn every_class_carries_the_prefix() {
    let mut h = Highlighter::new();
    let text = "/** A doc comment.\n *\n * More words.\n */\nint main(void) { return 0; }\n";
    let lines = h.lines("blob-of-the-test", text, Some("c"), "a.c");

    let mut seen = 0;
    for line in lines.iter() {
        for span in line {
            for class in span.cls.split_whitespace() {
                assert!(class.starts_with("tok-"), "{class} is not prefixed");
                seen += 1;
            }
        }
    }
    assert!(seen > 0, "the fixture must produce some classes");
}

use qreview::highlight::pick_syntax;

#[test]
fn the_language_of_the_map_wins_then_the_extension_then_the_first_line() {
    assert_eq!(pick_syntax(Some("C"), Some("Rust"), Some("Bash"), Some("Plain Text")), Some("C"));
    assert_eq!(pick_syntax(None, Some("Rust"), Some("Bash"), Some("Plain Text")), Some("Rust"));
    assert_eq!(pick_syntax(None, None, Some("Bash"), Some("Plain Text")), Some("Bash"));
    assert_eq!(pick_syntax::<&str>(None, None, None, Some("Plain Text")), Some("Plain Text"));
    assert_eq!(pick_syntax::<&str>(None, None, None, None), None);
}

use qreview::highlight::{apply, no_scopes, spans_of_line, Op};

#[test]
fn the_scopes_follow_the_ops_as_the_stack_applies_them() {
    let mut s = no_scopes();
    assert!(apply(&mut s, &Op::Push("source.c".to_owned())));
    assert!(apply(&mut s, &Op::Push("comment.block.c".to_owned())));
    assert!(apply(&mut s, &Op::Push("punctuation.x".to_owned())));
    assert!(apply(&mut s, &Op::ClearTop(2)));
    assert_eq!(s.names, ["source.c"]);
    assert_eq!(s.cleared, [vec!["comment.block.c".to_owned(), "punctuation.x".to_owned()]]);
    assert!(apply(&mut s, &Op::Restore));
    assert_eq!(s.names, ["source.c", "comment.block.c", "punctuation.x"]);
    assert!(apply(&mut s, &Op::Pop(5)));
    assert!(s.names.is_empty());
    assert!(!apply(&mut s, &Op::Restore), "nothing cleared is nothing to restore");
    assert!(apply(&mut s, &Op::Noop));
    assert!(apply(&mut s, &Op::ClearAll));
    assert_eq!(s.cleared.len(), 1);
}

#[test]
fn the_ops_of_a_line_become_its_spans() {
    let mut s = no_scopes();
    apply(&mut s, &Op::Push("source.c".to_owned()));
    let ops = vec![
        (0, Op::Push("storage.type.c".to_owned())),
        (3, Op::Pop(1)),
        (8, Op::Push("constant.numeric.c".to_owned())),
        (9, Op::Pop(1)),
    ];
    let spans = spans_of_line("int x = 1;\n", &ops, &mut s);
    let got: Vec<(usize, usize, &str)> = spans.iter().map(|s| (s.start, s.end, s.cls.as_str())).collect();

    assert_eq!(got, [(0, 3, "tok-storage tok-type"), (8, 9, "tok-constant tok-numeric")]);
    assert_eq!(s.names, ["source.c"], "the scopes carry to the next line");
}
