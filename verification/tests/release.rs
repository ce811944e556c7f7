use qreview::release::{
    collect, branch_to_push, bump, check_version, collected_text, commit_message, group, push_line, sort_by_name, tag_args,
    with_section,
};

#[test]
fn a_version_is_three_runs_of_digits() {
    assert!(check_version("0.1.0").is_ok());
    assert!(check_version("10.20.30").is_ok());
    assert_eq!(check_version("0.1").unwrap_err(), "0.1 is not a version like 0.1.0");
    assert!(check_version("0.1.x").is_err());
    assert!(check_version("0..1").is_err());
}

#[test]
fn the_first_version_line_is_the_one_bumped() {
    let text = "[workspace]\nversion = \"0.1.0\"\nother = 1\nversion = \"keep\"\n";

    assert_eq!(
        bump(text, "0.2.0").unwrap(),
        "[workspace]\nversion = \"0.2.0\"\nother = 1\nversion = \"keep\"\n"
    );
    assert_eq!(bump("[package]\n", "0.2.0"), None);
}

#[test]
fn a_section_goes_under_the_marker() {
    let text = "# Changelog\n<!-- The release script writes new versions under this line. -->\n\n## [0.1.0]\n";

    assert_eq!(
        with_section(text, "0.2.0", "### Fixed\n\n- A thing.\n\n").unwrap(),
        "# Changelog\n<!-- The release script writes new versions under this line. -->\n\n## [0.2.0]\n\n### Fixed\n\n- A thing.\n## [0.1.0]\n"
    );
    assert_eq!(with_section("no marker", "0.2.0", ""), None);
}

#[test]
fn the_entries_of_a_group_read_in_the_order_of_their_files() {
    let entries = vec![
        ("b.md".to_owned(), "- Second.\n".to_owned()),
        ("a.md".to_owned(), "- First.\n\n".to_owned()),
    ];

    let sorted = sort_by_name(entries.clone());
    assert_eq!(sorted[0].0, "a.md");
    assert_eq!(group("Fixed", entries), "### Fixed\n\n- First.\n- Second.\n\n");
    assert_eq!(group("Added", Vec::new()), "");
}

#[test]
fn nothing_waiting_says_so() {
    assert_eq!(collected_text(&vec![String::new(), String::new()]), "Nothing is waiting for a release.\n");
    assert_eq!(collected_text(&vec!["### Added\n\n- A.\n\n".to_owned()]), "### Added\n\n- A.\n\n");
}

#[test]
fn the_line_to_push_names_the_branch_that_is_out() {
    assert_eq!(branch_to_push("main\n"), "main");
    assert_eq!(branch_to_push("\n"), "HEAD");
    assert_eq!(push_line("main", "1.2.3"), "    git push origin main v1.2.3");
}

#[test]
fn the_tag_is_annotated_and_carries_the_notes() {
    let args = tag_args("1.2.3", "### Fixed\n\n- A thing that was broken.\n");

    assert_eq!(args, ["tag", "-a", "-m", "qreview v1.2.3", "-m", "### Fixed\n\n- A thing that was broken.", "v1.2.3"]);
    assert_eq!(commit_message("1.2.3"), "chore(release): v1.2.3");
}

#[test]
fn the_groups_are_collected_in_order_with_their_files() {
    let groups = vec![
        ("Added".to_owned(), vec![("b.md".to_owned(), "- B.".to_owned()), ("a.md".to_owned(), "- A.".to_owned())]),
        ("Changed".to_owned(), Vec::new()),
        ("Fixed".to_owned(), vec![("c.md".to_owned(), "- C.\n".to_owned())]),
    ];
    let collected = collect(groups);

    assert_eq!(collected.text, "### Added\n\n- A.\n- B.\n\n### Fixed\n\n- C.\n\n");
    assert_eq!(collected.files, ["a.md", "b.md", "c.md"]);
    assert_eq!(collect(Vec::new()).text, "Nothing is waiting for a release.\n");
}

#[test]
fn the_changelog_groups_are_printed_in_their_order() {
    let g = qreview::release::groups();
    let names: Vec<(&str, &str)> = g.iter().map(|(d, t)| (d.as_str(), t.as_str())).collect();
    assert_eq!(names, [("added", "Added"), ("changed", "Changed"), ("fixed", "Fixed"), ("removed", "Removed")]);
}
