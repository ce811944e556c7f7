use qreview::repo::{canonical, id_of, info};

#[test]
fn the_spellings_of_one_remote_agree() {
    let forms = [
        "ssh://review.example.com:29418/myproject",
        "ssh://user@review.example.com:29418/myproject.git",
        "review.example.com:myproject.git",
        "https://review.example.com/myproject",
        "ssh://review.example.com/myproject/",
    ];

    for form in forms {
        assert_eq!(canonical(form), "review.example.com/myproject", "{form}");
    }
}

#[test]
fn two_projects_do_not_collide() {
    assert_ne!(canonical("ssh://review.example.com/one"), canonical("ssh://review.example.com/two"));
    assert_ne!(canonical("ssh://a.example.com/project"), canonical("ssh://b.example.com/project"));
}

#[test]
fn a_nested_path_is_kept_whole() {
    assert_eq!(
        canonical("ssh://review.example.com:29418/group/sub/myproject.git"),
        "review.example.com/group/sub/myproject"
    );
}

#[test]
fn a_repository_is_keyed_by_sixteen_hex_digits() {
    let id = id_of("review.example.com/myproject");

    assert_eq!(id, "ed74f7b1bd1dd88f");
    assert!(id.chars().all(|c| c.is_ascii_hexdigit()));
    assert_ne!(id, id_of("review.example.com/other"));
}

#[test]
fn a_repository_with_a_remote_is_keyed_by_it() {
    let one = info("/a".to_owned(), Some("ssh://user@review.example.com:29418/myproject.git".to_owned()), "/a/.git".to_owned());
    let two = info("/b".to_owned(), Some("ssh://review.example.com/myproject".to_owned()), "/b/.git".to_owned());

    assert_eq!(one.remote.as_deref(), Some("review.example.com/myproject"));
    assert_eq!(one.id, two.id);
}

#[test]
fn a_repository_without_a_remote_falls_back_to_its_path() {
    let one = info("/a".to_owned(), None, "/a/.git".to_owned());
    let two = info("/b".to_owned(), None, "/b/.git".to_owned());

    assert_eq!(one.remote, None);
    assert_eq!(one.id.len(), 16);
    assert_ne!(one.id, two.id);
}
