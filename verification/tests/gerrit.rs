use qreview::gerrit::coords::{from_remote, Coordinates};
use qreview::gerrit::posted::{column_of, posted_id};
use qreview::gerrit::terms_of;
use qreview::store::model::Side;

fn coords(branch: Option<&str>) -> Coordinates {
    Coordinates {
        host: "review.example.com".to_owned(),
        port: 29418,
        project: "myproject".to_owned(),
        branch: branch.map(str::to_owned),
    }
}

#[test]
fn an_ssh_remote_gives_the_host_the_port_and_the_project() {
    let coords = from_remote("ssh://review.example.com:29418/myproject").unwrap();

    assert_eq!(coords.host, "review.example.com");
    assert_eq!(coords.port, 29418);
    assert_eq!(coords.project, "myproject");
}

#[test]
fn a_user_and_a_git_suffix_are_dropped() {
    let coords = from_remote("ssh://someone@review.example.com:29418/group/sub.git").unwrap();

    assert_eq!(coords.host, "review.example.com");
    assert_eq!(coords.project, "group/sub");
}

#[test]
fn a_missing_port_is_the_gerrit_default() {
    assert_eq!(from_remote("ssh://review.example.com/p").unwrap().port, 29418);
}

#[test]
fn a_remote_that_is_not_ssh_is_not_a_gerrit() {
    assert!(from_remote("https://review.example.com/myproject").is_none());
    assert!(from_remote("review.example.com:myproject.git").is_none());
    assert!(from_remote("/home/someone/a-local-clone").is_none());
}

#[test]
fn a_remote_with_no_project_is_refused() {
    assert!(from_remote("ssh://review.example.com:29418/").is_none());
}

#[test]
fn one_change_asks_for_that_change_on_that_branch() {
    let terms = terms_of(&coords(Some("main")), &["I1111"]);

    assert_eq!(terms, "(change:I1111) project:myproject branch:main");
}

#[test]
fn a_series_is_one_group_of_changes() {
    let terms = terms_of(&coords(Some("main")), &["I1111", "I2222", "I3333"]);

    assert_eq!(terms, "(change:I1111 OR change:I2222 OR change:I3333) project:myproject branch:main");
}

#[test]
fn a_remote_with_no_branch_asks_about_the_project_alone() {
    let terms = terms_of(&coords(None), &["I1111"]);

    assert_eq!(terms, "(change:I1111) project:myproject");
}

#[test]
fn a_posted_remark_is_named_by_its_place() {
    assert_eq!(posted_id(2, 0), "g2-0");
    assert_eq!(posted_id(12, 31), "g12-31");
}

#[test]
fn a_remark_of_another_version_is_not_on_the_screen() {
    assert_eq!(column_of("right", "right", Some("left")), Some(Side::New));
    assert_eq!(column_of("left", "right", Some("left")), Some(Side::Old));
    assert_eq!(column_of("other", "right", Some("left")), None);
    assert_eq!(column_of("left", "right", None), None);
}

use qreview::gerrit::{ask_again, outcome, query_args, ssh_args, Failed, Ran};

#[test]
fn a_query_asks_for_the_remarks_or_not() {
    assert_eq!(query_args("t", true), ["gerrit", "query", "--format=JSON", "--patch-sets", "--comments", "t"]);
    assert_eq!(query_args("t", false), ["gerrit", "query", "--format=JSON", "--patch-sets", "t"]);
}

#[test]
fn ssh_never_prompts_and_names_the_port() {
    let args = ssh_args(&coords(None), &vec!["gerrit".to_owned(), "query".to_owned()]);

    assert_eq!(
        args,
        [
            "-oBatchMode=yes",
            "-oStrictHostKeyChecking=accept-new",
            "-p",
            "29418",
            "review.example.com",
            "gerrit",
            "query"
        ]
    );
}

#[test]
fn a_server_that_refused_is_asked_again_and_a_silent_one_is_not() {
    match outcome("h", Ran::Done(false, String::new(), "  no such option \n".to_owned())) {
        Err(failed) => {
            assert!(ask_again(&failed));
            assert_eq!(failed.error(), "the Gerrit query failed: no such option");
        }
        Ok(_) => panic!("a failed run is no answer"),
    }
    match outcome("h", Ran::TimedOut) {
        Err(failed) => {
            assert!(!ask_again(&failed));
            assert_eq!(failed.error(), "h did not answer in 5s");
        }
        Ok(_) => panic!("no answer in time is no answer"),
    }
    assert!(matches!(outcome("h", Ran::NotRun("gone".to_owned())), Err(Failed::Unreachable(_))));
    assert_eq!(outcome("h", Ran::Done(true, "{}".to_owned(), String::new())).ok().as_deref(), Some("{}"));
}

use qreview::comments::NewComment;
use qreview::gerrit::answer::{InlineComment, Person};
use qreview::gerrit::posted::{line_of, request_of};
use qreview::store::model::Scope;

fn person(name: &str, email: &str, username: &str) -> Person {
    Person { name: name.to_owned(), email: email.to_owned(), username: username.to_owned() }
}

fn remark(file: &str, line: Option<usize>) -> InlineComment {
    InlineComment {
        file: file.to_owned(),
        line,
        reviewer: person("Rita", "", ""),
        message: "please rename".to_owned(),
    }
}

#[test]
fn a_remark_on_a_line_keeps_its_line() {
    assert_eq!(line_of(&remark("src/a.c", Some(12))), Some(12));
    assert_eq!(line_of(&remark("src/a.c", Some(0))), None);
    assert_eq!(line_of(&remark("src/a.c", None)), None);
    assert_eq!(line_of(&remark("/COMMIT_MSG", Some(7))), None);
}

#[test]
fn a_posted_remark_is_asked_for_like_a_comment_of_the_reader() {
    let on_line: NewComment = request_of(&remark("src/a.c", Some(12)));
    assert_eq!(on_line.scope, Scope::Line);
    assert_eq!(on_line.file.as_deref(), Some("src/a.c"));
    assert_eq!(on_line.side, Some(Side::New));
    assert_eq!((on_line.start_line, on_line.end_line), (Some(12), Some(12)));
    assert_eq!(on_line.body, "please rename");

    let on_file = request_of(&remark("src/a.c", None));
    assert_eq!(on_file.scope, Scope::File);
    assert_eq!(on_file.start_line, None);
}

#[test]
fn a_person_is_called_by_the_best_name_the_server_gave() {
    assert_eq!(person(" Rita ", "r@x", "rita").label(), "Rita");
    assert_eq!(person("", "r@x", "rita").label(), "rita");
    assert_eq!(person(" ", "r@x", "").label(), "r@x");
    assert_eq!(person("", "", "").label(), "someone");
}
