use qreview::config::Update;
use qreview::update::{address, newer, parts, read, release_of, Release};

#[test]
fn a_later_version_is_later() {
    assert!(newer("0.5.0", "0.5.1"));
    assert!(newer("0.5.0", "v0.6.0"));
    assert!(newer("0.9.0", "0.10.0"), "read as numbers, not as text");
    assert!(newer("1.9.9", "2.0.0"));
}

#[test]
fn the_same_version_or_an_older_one_is_not() {
    assert!(!newer("0.5.0", "0.5.0"));
    assert!(!newer("0.5.0", "v0.5.0"));
    assert!(!newer("0.5.1", "0.5.0"));
    assert!(!newer("1.0.0", "0.9.9"));
}

#[test]
fn a_tag_that_is_not_a_version_says_nothing() {
    assert!(!newer("0.5.0", "nightly"));
    assert!(!newer("0.5.0", "v0.5"));
    assert!(!newer("0.5.0", "0.5.0.1"));
    assert!(!newer("0.5.0", ""));
}

#[test]
fn the_tag_and_the_page_are_read_from_the_answer() {
    let answer = r#"{"tag_name":"v0.6.0","name":"qreview v0.6.0",
        "html_url":"https://example.com/Intersec/qreview/releases/tag/v0.6.0"}"#;

    assert_eq!(
        read(answer),
        Some(("v0.6.0".to_owned(), Some("https://example.com/Intersec/qreview/releases/tag/v0.6.0".to_owned())))
    );
}

#[test]
fn an_answer_that_says_nothing_useful_is_dropped() {
    assert_eq!(read("not json"), None);
    assert_eq!(read("{}"), None);
    assert_eq!(read(r#"{"tag_name":""}"#), None);
    assert_eq!(read(r#"{"tag_name":"v1.0.0"}"#), Some(("v1.0.0".to_owned(), None)));
}

#[test]
fn no_address_asks_nothing() {
    for quiet in [None, Some(String::new())] {
        let config = Update { url: quiet, token: None };

        assert_eq!(address(&config), None);
        assert_eq!(release_of("0.5.0", None), Release::default());
    }
}

#[test]
fn a_version_is_three_numbers() {
    assert_eq!(parts("v1.2.3"), Some((1, 2, 3)));
    assert_eq!(parts(" 0.10.0 "), Some((0, 10, 0)));
    assert_eq!(parts("1.2"), None);
}

#[test]
fn a_newer_release_is_announced() {
    let r = release_of("0.5.0", Some(r#"{"tag_name":"v0.6.0","html_url":"u"}"#.to_owned()));

    assert_eq!(r.latest.as_deref(), Some("v0.6.0"));
    assert_eq!(r.url.as_deref(), Some("u"));
    assert!(r.newer);
}
