use qreview::text::{
    chars_of, decimal_of, digits_only, find_chars, has_prefix, has_suffix, lines_of, lower_chars, parse_usize_chars,
    rfind_char_in, same_str, split_chars, strip_prefix, string_of, trim_chars, trim_end_chars, trim_end_matching,
    trim_end_str, trim_start_chars, trim_start_matching, words_of,
};

fn c(s: &str) -> Vec<char> {
    chars_of(s)
}

fn s(v: &[char]) -> String {
    string_of(v)
}

fn all(v: Vec<Vec<char>>) -> Vec<String> {
    v.iter().map(|x| s(x)).collect()
}

#[test]
fn trimming_removes_white_space_at_either_end() {
    assert_eq!(s(&trim_chars(&c(" \t a b \n"))), "a b");
    assert_eq!(s(&trim_end_chars(&c(" a \r\n"))), " a");
    assert_eq!(s(&trim_start_chars(&c("\n a "))), "a ");
    assert_eq!(s(&trim_end_matching(&c("x\t\t"), '\t')), "x");
    assert_eq!(s(&trim_start_matching(&c("..ext"), '.')), "ext");
    assert_eq!(s(&trim_end_str(&c("name.git.git"), ".git")), "name");
}

#[test]
fn lines_and_words_are_cut_as_str_cuts_them() {
    assert_eq!(all(lines_of(&c("a\r\nb\n\nc"))), ["a", "b", "", "c"]);
    assert_eq!(all(lines_of(&c("a\n"))), ["a"]);
    assert!(lines_of(&c("")).is_empty());
    assert_eq!(all(words_of(&c("  one\ttwo \n three "))), ["one", "two", "three"]);
    assert_eq!(all(split_chars(&c("a.b..c"), '.')), ["a", "b", "", "c"]);
}

#[test]
fn numbers_are_read_and_written_in_decimal() {
    assert_eq!(parse_usize_chars(&c("0042")), Some(42));
    assert_eq!(parse_usize_chars(&c("")), None);
    assert_eq!(parse_usize_chars(&c("4x")), None);
    assert_eq!(parse_usize_chars(&c("99999999999999999999999")), None);
    assert_eq!(s(&decimal_of(0)), "0");
    assert_eq!(s(&decimal_of(1203)), "1203");
    assert!(digits_only(&c("0123")));
    assert!(!digits_only(&c("01a")));
}

#[test]
fn prefixes_suffixes_and_places_are_found() {
    assert!(has_prefix(&c("abc"), &c("ab")));
    assert!(!has_prefix(&c("a"), &c("ab")));
    assert!(has_suffix(&c("abc"), &c("bc")));
    assert_eq!(strip_prefix(&c("a/b"), "a/").map(|v| s(&v)), Some("b".to_owned()));
    assert_eq!(strip_prefix(&c("b/b"), "a/"), None);
    assert_eq!(find_chars(&c("x..y..z"), &c("..")), Some(1));
    assert_eq!(find_chars(&c("xyz"), &c("..")), None);
    assert_eq!(rfind_char_in(&c("a/b/c"), '/'), Some(3));
    assert!(same_str("é", "é"));
    assert!(!same_str("e", "é"));
}

#[test]
fn lower_case_follows_unicode() {
    assert_eq!(s(&lower_chars(&c("ÀbC"))), "àbc");
}
