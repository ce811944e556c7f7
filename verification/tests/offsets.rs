use qreview::model::{Row, RowKind, Span, WordSpan};
use qreview::offsets::to_utf16;

fn row(text: &str, tokens: &[(usize, usize)], words: &[(usize, usize)]) -> Row {
    Row {
        kind: RowKind::Add,
        old_line: None,
        new_line: Some(1),
        text: text.to_owned(),
        no_newline: false,
        tokens: tokens.iter().map(|(s, e)| Span { start: *s, end: *e, cls: "string".to_owned() }).collect(),
        words: words.iter().map(|(s, e)| WordSpan { start: *s, end: *e }).collect(),
    }
}

#[test]
fn an_ascii_line_is_unchanged() {
    let mut r = row("let a = 1;", &[(4, 5)], &[(8, 9)]);
    to_utf16(&mut r);

    assert_eq!((r.tokens[0].start, r.tokens[0].end), (4, 5));
    assert_eq!((r.words[0].start, r.words[0].end), (8, 9));
}

#[test]
fn an_accent_moves_the_offsets_after_it() {
    let text = "héllo world";
    let byte_start = text.find("world").unwrap();
    let mut r = row(text, &[(byte_start, text.len())], &[]);
    to_utf16(&mut r);

    assert_eq!(byte_start, 7, "the byte offset counts é as two");
    assert_eq!(r.tokens[0].start, 6, "the browser counts it as one");
    assert_eq!(r.tokens[0].end, 11);
}

#[test]
fn an_emoji_counts_as_two_in_the_browser() {
    let text = "x 🚀 y";
    let byte_start = text.find(" y").unwrap();
    let mut r = row(text, &[(byte_start, text.len())], &[]);
    to_utf16(&mut r);

    assert_eq!(byte_start, 6);
    assert_eq!(r.tokens[0].start, 4, "one x, one space, two for the rocket");
}

#[test]
fn the_class_survives_the_conversion() {
    let mut r = row("héllo", &[(0, 6)], &[]);
    to_utf16(&mut r);

    assert_eq!(r.tokens[0].cls, "string");
}

#[test]
fn an_offset_inside_a_character_rounds_down() {
    let mut r = row("héllo", &[(2, 6)], &[]);
    to_utf16(&mut r);

    assert_eq!(r.tokens[0].start, 1);
}

#[test]
fn a_word_span_moves_with_the_text() {
    let mut r = row("é x", &[], &[(3, 4)]);
    to_utf16(&mut r);

    assert_eq!((r.words[0].start, r.words[0].end), (2, 3));
}
