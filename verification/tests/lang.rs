use qreview::lang::{Languages, Table};

#[test]
fn the_built_in_extensions_resolve() {
    let lang = Languages::new();

    assert_eq!(lang.of("src/net.blk"), Some("c"));
    assert_eq!(lang.of("src/thing.pxc"), Some("c"));
    assert_eq!(lang.of("src/fast.pyx"), Some("python"));
    assert_eq!(lang.of("iface/api.iop"), Some("d"));
    assert_eq!(lang.of("page.tpl"), Some("jinja2"));
}

#[test]
fn an_extension_nothing_claims_is_left_to_the_highlighter() {
    let lang = Languages::new();

    assert_eq!(lang.of("src/main.rs"), None);
    assert_eq!(lang.of("Makefile"), None);
    assert_eq!(lang.of("src/no.extension/README"), None);
}

#[test]
fn the_case_of_the_extension_does_not_matter() {
    let lang = Languages::new();

    assert_eq!(lang.of("SRC/NET.BLK"), Some("c"));
}

#[test]
fn a_user_entry_wins_and_a_leading_dot_is_allowed() {
    let mut lang = Languages::new();
    let mut user = Table::new();
    user.insert(".blk".to_owned(), "objective-c".to_owned());
    user.insert("zz".to_owned(), "yaml".to_owned());
    lang.extend(&user);

    assert_eq!(lang.of("a.blk"), Some("objective-c"));
    assert_eq!(lang.of("a.zz"), Some("yaml"));
}

#[test]
fn a_dot_in_a_directory_name_is_not_an_extension() {
    let lang = Languages::new();

    assert_eq!(lang.of("some.dir/file"), None);
}

#[test]
fn a_later_insert_of_a_key_replaces_the_earlier() {
    let mut table = Table::new();
    table.insert("a".to_owned(), "one".to_owned());
    table.insert("a".to_owned(), "two".to_owned());

    assert_eq!(table.get("a").map(String::as_str), Some("two"));
    assert_eq!(table.entries().len(), 1);
}

#[test]
fn every_language_of_the_map_is_bundled() {
    let set = two_face::syntax::extra_newlines();
    let lang = Languages::new();

    for ext in ["blk", "pxc", "pyx", "iop", "tpl"] {
        let name = lang.of(&format!("file.{ext}")).unwrap();
        assert!(set.find_syntax_by_token(name).is_some(), "no grammar for {name}, mapped from .{ext}");
    }
}

use qreview::lang::{key_of, write_all};

#[test]
fn an_extension_is_filed_lower_case_without_its_dots() {
    assert_eq!(key_of(".BLK"), "blk");
    assert_eq!(key_of("..Tpl"), "tpl");
    assert_eq!(key_of("c"), "c");
}

#[test]
fn every_pair_is_written_under_its_key_and_a_later_one_wins() {
    let mut map = Table::new();
    map.insert("c".to_owned(), "C".to_owned());
    let mut user = Table::new();
    user.insert(".H".to_owned(), "C++".to_owned());
    user.insert("c".to_owned(), "Objective-C".to_owned());
    write_all(&mut map, &user);

    assert_eq!(map.get("h").map(String::as_str), Some("C++"));
    assert_eq!(map.get("c").map(String::as_str), Some("Objective-C"));
    assert_eq!(map.get(".H"), None);
}
