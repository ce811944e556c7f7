use std::collections::HashMap;

use qreview::git::commit::CommitInfo;
use qreview::model::{Boundary, BoundaryKind};
use qreview::series::refs::{is_on_a_remote, name_or_short, remotes_in, tags_by_commit};
use qreview::series::walk::{Ask, Walk};
use qreview::series::{
    asks_gerrit, author_of, count_of, first_rule, integration_names, local_base, merge_base_of, plan_for, range_of,
    settle, Options, Start,
};

/// A history in memory: what git would answer about it.
struct Repo {
    commits: HashMap<String, CommitInfo>,
    tags: String,
    remotes: HashMap<String, Vec<String>>,
}

fn commit(hash: &str, parents: &[&str], email: &str) -> CommitInfo {
    CommitInfo {
        hash: hash.to_owned(),
        parents: parents.iter().map(|p| (*p).to_owned()).collect(),
        author: format!("Author of {hash}"),
        email: email.to_owned(),
        date: "2024-01-01T00:00:00Z".to_owned(),
        subject: format!("subject {hash}"),
        message: format!("subject {hash}\n"),
    }
}

/// A first-parent chain, newest first, all by one author.
fn chain(hashes: &[&str]) -> Repo {
    let mut commits = HashMap::new();
    for (i, h) in hashes.iter().enumerate() {
        let parents: Vec<&str> = hashes.get(i + 1).into_iter().copied().collect();
        commits.insert((*h).to_owned(), commit(h, &parents, "me@example.com"));
    }
    Repo { commits, tags: String::new(), remotes: HashMap::new() }
}

impl Repo {
    fn count(&self, from: &str, to: &str) -> Option<usize> {
        let mut n = 0;
        let mut at = to.to_owned();
        while at != from {
            n += 1;
            at = self.commits.get(&at)?.parents.first()?.clone();
        }
        if n == 0 {
            None
        } else {
            Some(n)
        }
    }

    fn holding(&self, hash: &str) -> Vec<String> {
        self.remotes.get(hash).cloned().unwrap_or_default()
    }

    /// Run the walk to its boundary, answering each question it asks.
    fn drive(&self, mut walk: Walk, head: &str) -> (Vec<String>, Boundary) {
        loop {
            match walk.next() {
                Ask::Commit(hash) => walk.read(self.commits[&hash].clone()),
                Ask::Count(from, to) => walk.counted(self.count(&from, &to)),
                Ask::Tags => walk.tagged(tags_by_commit(&self.tags)),
                Ask::Holding => walk.held(self.holding(head)),
                Ask::Remote(hash) => {
                    let on_head = walk.holding.clone().unwrap_or_default();
                    walk.found(is_on_a_remote(&self.holding(&hash), &on_head));
                }
                Ask::Stop(boundary) => {
                    let loaded = walk.changes.iter().map(|c| c.commit.clone()).collect();
                    return (loaded, boundary);
                }
            }
        }
    }
}

fn walk(base: Option<&str>, rule: &str, start: &str, limit: usize, guess: bool, author: Option<&str>) -> Walk {
    Walk::new(base.map(str::to_owned), rule.to_owned(), start.to_owned(), limit, guess, author.map(str::to_owned))
}

#[test]
fn the_walk_stops_at_the_base_and_names_the_rule() {
    let repo = chain(&["c5", "c4", "c3", "c2", "c1"]);
    let (loaded, stop) = repo.drive(walk(Some("c2"), "--base", "c5", 50, false, None), "c5");

    assert_eq!(loaded, ["c5", "c4", "c3"]);
    assert_eq!(stop.kind, BoundaryKind::Base);
    assert_eq!(stop.commit.as_deref(), Some("c2"));
    assert_eq!(stop.reason, "--base");
    assert!(!stop.guessed);
}

#[test]
fn a_head_that_is_the_base_is_an_empty_series() {
    let repo = chain(&["c2", "c1"]);
    let (loaded, stop) = repo.drive(walk(Some("c2"), "--base", "c2", 50, false, None), "c2");

    assert!(loaded.is_empty());
    assert_eq!(stop.kind, BoundaryKind::Base);
}

#[test]
fn a_merge_is_loaded_and_the_walk_stops_under_it() {
    let mut repo = chain(&["c4", "m3", "c2", "c1"]);
    repo.commits.insert("m3".to_owned(), commit("m3", &["c2", "side"], "me@example.com"));
    let (loaded, stop) = repo.drive(walk(None, "the base", "c4", 50, false, None), "c4");

    assert_eq!(loaded, ["c4", "m3"]);
    assert_eq!(stop.kind, BoundaryKind::Merge);
    assert_eq!(stop.commit.as_deref(), Some("c2"));
    assert_eq!(stop.reason, "under the merge m3");
}

#[test]
fn a_merge_at_the_head_is_loaded_alone() {
    let mut repo = chain(&["m2", "c1"]);
    repo.commits.insert("m2".to_owned(), commit("m2", &["c1", "side"], "me@example.com"));
    let (loaded, stop) = repo.drive(walk(None, "the base", "m2", 50, false, None), "m2");

    assert_eq!(loaded, ["m2"]);
    assert_eq!(stop.kind, BoundaryKind::Merge);
}

#[test]
fn a_tagged_commit_under_the_head_is_the_boundary() {
    let mut repo = chain(&["c4", "c3", "c2", "c1"]);
    repo.tags = "c2  v1.0\n".to_owned();
    let (loaded, stop) = repo.drive(walk(None, "the base", "c4", 50, false, None), "c4");

    assert_eq!(loaded, ["c4", "c3"]);
    assert_eq!(stop.kind, BoundaryKind::Tag);
    assert_eq!(stop.commit.as_deref(), Some("c2"));
    assert_eq!(stop.reason, "the tag v1.0");
}

#[test]
fn an_annotated_tag_is_read_on_the_commit_it_peels_to() {
    let mut repo = chain(&["c3", "c2", "c1"]);
    repo.tags = "t9 c2 v2.0\n".to_owned();
    let (loaded, stop) = repo.drive(walk(None, "the base", "c3", 50, false, None), "c3");

    assert_eq!(loaded, ["c3"]);
    assert_eq!(stop.kind, BoundaryKind::Tag);
    assert_eq!(stop.reason, "the tag v2.0");
}

#[test]
fn the_tag_of_the_head_is_passed_over() {
    let mut repo = chain(&["c2", "c1"]);
    repo.tags = "c2  v3\n".to_owned();
    let (loaded, stop) = repo.drive(walk(None, "the base", "c2", 50, false, None), "c2");

    assert_eq!(loaded, ["c2", "c1"]);
    assert_eq!(stop.kind, BoundaryKind::Root);
}

#[test]
fn a_batch_fills_up_and_says_what_is_left() {
    let repo = chain(&["c5", "c4", "c3", "c2", "c1"]);
    let (loaded, stop) = repo.drive(walk(Some("c1"), "--base", "c5", 2, false, None), "c5");

    assert_eq!(loaded, ["c5", "c4"]);
    assert_eq!(stop.kind, BoundaryKind::Batch);
    assert_eq!(stop.commit.as_deref(), Some("c3"));
    assert_eq!(stop.remaining, Some(2));
    assert_eq!(stop.reason, "2 commits loaded, 2 to the base");
}

#[test]
fn the_next_batch_continues_from_the_boundary() {
    let repo = chain(&["c5", "c4", "c3", "c2", "c1"]);
    let (_, first) = repo.drive(walk(Some("c1"), "--base", "c5", 2, false, None), "c5");
    let next = first.commit.unwrap();
    let (loaded, stop) = repo.drive(walk(Some("c1"), "--base", &next, 2, false, None), "c5");

    assert_eq!(loaded, ["c3", "c2"]);
    assert_eq!(stop.kind, BoundaryKind::Base);
}

#[test]
fn a_batch_without_a_base_only_counts_what_it_loaded() {
    let repo = chain(&["c3", "c2", "c1"]);
    let (loaded, stop) = repo.drive(walk(None, "the base", "c3", 1, false, None), "c3");

    assert_eq!(loaded, ["c3"]);
    assert_eq!(stop.kind, BoundaryKind::Batch);
    assert_eq!(stop.remaining, None);
    assert_eq!(stop.reason, "1 commits loaded");
}

#[test]
fn a_guess_ends_at_its_cap() {
    let repo = chain(&["c4", "c3", "c2", "c1"]);
    let (loaded, stop) = repo.drive(walk(None, "the base", "c4", 2, true, Some("me@example.com")), "c4");

    assert_eq!(loaded, ["c4", "c3"]);
    assert_eq!(stop.kind, BoundaryKind::Guess);
    assert_eq!(stop.reason, "the guess stopped at its cap of 2");
    assert!(stop.guessed);
}

#[test]
fn a_guess_ends_on_a_commit_a_remote_holds() {
    let mut repo = chain(&["c4", "c3", "c2", "c1"]);
    repo.remotes.insert("c2".to_owned(), vec!["origin/main".to_owned()]);
    let (loaded, stop) = repo.drive(walk(None, "the base", "c4", 10, true, Some("me@example.com")), "c4");

    assert_eq!(loaded, ["c4", "c3"]);
    assert_eq!(stop.kind, BoundaryKind::Guess);
    assert_eq!(stop.commit.as_deref(), Some("c2"));
    assert_eq!(stop.reason, "on origin/main");
}

#[test]
fn a_remote_that_holds_the_head_says_nothing() {
    let mut repo = chain(&["c3", "c2", "c1"]);
    for h in ["c3", "c2", "c1"] {
        repo.remotes.insert(h.to_owned(), vec!["origin/review".to_owned()]);
    }
    let (loaded, stop) = repo.drive(walk(None, "the base", "c3", 10, true, Some("me@example.com")), "c3");

    assert_eq!(loaded, ["c3", "c2", "c1"]);
    assert_eq!(stop.kind, BoundaryKind::Root);
}

#[test]
fn a_guess_ends_on_a_commit_of_another_author() {
    let mut repo = chain(&["c3", "c2", "c1"]);
    repo.commits.insert("c2".to_owned(), commit("c2", &["c1"], "other@example.com"));
    let (loaded, stop) = repo.drive(walk(None, "the base", "c3", 10, true, Some("me@example.com")), "c3");

    assert_eq!(loaded, ["c3"]);
    assert_eq!(stop.kind, BoundaryKind::Guess);
    assert_eq!(stop.reason, "written by Author of c2");
}

#[test]
fn a_known_base_ignores_the_soft_signals() {
    let mut repo = chain(&["c4", "c3", "c2", "c1"]);
    repo.commits.insert("c3".to_owned(), commit("c3", &["c2"], "other@example.com"));
    repo.remotes.insert("c3".to_owned(), vec!["origin/main".to_owned()]);
    let (loaded, stop) = repo.drive(walk(Some("c1"), "--base", "c4", 10, false, Some("me@example.com")), "c4");

    assert_eq!(loaded, ["c4", "c3", "c2"]);
    assert_eq!(stop.kind, BoundaryKind::Base);
}

#[test]
fn the_walk_reaches_the_root_and_names_no_commit() {
    let repo = chain(&["c2", "c1"]);
    let (loaded, stop) = repo.drive(walk(None, "the base", "c2", 10, false, None), "c2");

    assert_eq!(loaded, ["c2", "c1"]);
    assert_eq!(stop.kind, BoundaryKind::Root);
    assert_eq!(stop.commit, None);
    assert_eq!(stop.subject, None);
    assert_eq!(stop.reason, "the history has no parent left");
}

#[test]
fn a_range_names_both_ends() {
    assert_eq!(range_of("main..topic"), Some(Ok(("main".to_owned(), "topic".to_owned()))));
    assert_eq!(range_of(" main .. "), Some(Ok(("main".to_owned(), "HEAD".to_owned()))));
    assert_eq!(range_of("..topic"), Some(Err("..topic names no base".to_owned())));
    assert_eq!(range_of("topic"), None);
}

fn options(rev: Option<&str>, base: Option<&str>) -> Options {
    let mut o = Options::new();
    o.rev = rev.map(str::to_owned);
    o.base = base.map(str::to_owned);
    o
}

#[test]
fn the_rules_are_chosen_in_their_order() {
    assert!(matches!(first_rule(&options(Some("a..b"), Some("x"))), Ok(Start::Range(f, t)) if f == "a" && t == "b"));
    assert!(matches!(first_rule(&options(Some("..b"), None)), Err(e) if e == "..b names no base"));
    assert!(matches!(first_rule(&options(Some("topic"), Some("x"))), Ok(Start::Base(h, b)) if h == "topic" && b == "x"));
    assert!(matches!(first_rule(&options(None, Some("x"))), Ok(Start::Base(h, b)) if h == "HEAD" && b == "x"));
    assert!(matches!(first_rule(&options(Some("topic"), None)), Ok(Start::Single(h)) if h == "topic"));
    assert!(matches!(first_rule(&options(None, None)), Ok(Start::Search)));
}

#[test]
fn a_rule_of_the_arguments_names_itself_and_its_limit() {
    let opts = Options::new();
    let range = plan_for(&Start::Range("a".into(), "b".into()), "h".into(), Some("b0".into()), &opts);
    assert_eq!(range.base, Some(("b0".to_owned(), "the range argument".to_owned())));
    assert_eq!(range.limit, 50);
    assert!(!range.guessing);

    let base = plan_for(&Start::Base("HEAD".into(), "x".into()), "h".into(), Some("x0".into()), &opts);
    assert_eq!(base.base, Some(("x0".to_owned(), "--base".to_owned())));

    let single = plan_for(&Start::Single("h".into()), "h".into(), None, &opts);
    assert_eq!(single.base, None);
    assert_eq!(single.limit, 1);
    assert!(!single.guessing);
}

#[test]
fn the_upstream_comes_before_the_integration_branch() {
    assert_eq!(
        local_base(Some("u".into()), Some("i".into())),
        Some(("u".to_owned(), "the upstream of the branch".to_owned()))
    );
    assert_eq!(
        local_base(None, Some("i".into())),
        Some(("i".to_owned(), "the merge base with the integration branch".to_owned()))
    );
    assert_eq!(local_base(None, None), None);
}

#[test]
fn gerrit_is_asked_only_when_the_clone_answered_nothing_or_far() {
    let local = Some(("b".to_owned(), "r".to_owned()));
    assert!(!asks_gerrit(&local, true));
    assert!(asks_gerrit(&local, false));
    assert!(asks_gerrit(&None, true));
}

#[test]
fn a_near_base_stands_and_a_far_one_gives_way_to_gerrit() {
    let opts = Options::new();
    let local = Some(("near".to_owned(), "the upstream of the branch".to_owned()));

    let kept = settle("h".into(), local.clone(), true, Some("g".into()), &opts);
    assert_eq!(kept.base, local);
    assert_eq!(kept.limit, 50);

    let gerrit = settle("h".into(), local.clone(), false, Some("g".into()), &opts);
    assert_eq!(gerrit.base, Some(("g".to_owned(), "the branch Gerrit has the change on".to_owned())));

    let far = settle("h".into(), local.clone(), false, None, &opts);
    assert_eq!(far.base, local);
}

#[test]
fn no_base_means_a_guess_under_its_own_cap() {
    let opts = Options::new();
    let plan = settle("h".into(), None, false, None, &opts);

    assert_eq!(plan.base, None);
    assert!(plan.guessing);
    assert_eq!(plan.limit, 10);
}

#[test]
fn the_integration_names_are_tried_on_origin_first() {
    assert_eq!(
        integration_names(Some("rel".into()), Some("main".into())),
        ["origin/rel", "rel", "origin/main", "main", "origin/HEAD"]
    );
    assert_eq!(integration_names(None, None), ["origin/HEAD"]);
}

#[test]
fn what_git_answered_is_read_trimmed() {
    assert_eq!(merge_base_of("abc\n"), Some("abc".to_owned()));
    assert_eq!(merge_base_of("  \n"), None);
    assert_eq!(count_of("12\n"), Some(12));
    assert_eq!(count_of("0\n"), None);
    assert_eq!(count_of("x"), None);
    assert_eq!(author_of("a@b".to_owned()), Some("a@b".to_owned()));
    assert_eq!(author_of(String::new()), None);
}

#[test]
fn the_remote_names_are_the_lines_that_say_something() {
    assert_eq!(remotes_in("origin/main\n  origin/rel \n\n"), ["origin/main", "origin/rel"]);
    let held = vec!["origin/review".to_owned()];
    assert_eq!(is_on_a_remote(&vec!["origin/review".to_owned(), "origin/main".to_owned()], &held), Some("origin/main".to_owned()));
    assert_eq!(is_on_a_remote(&held, &held), None);
}

#[test]
fn a_commit_is_called_by_its_name_or_its_short_hash() {
    assert_eq!(name_or_short(" main~2 \n", "0123456789abcdef"), "main~2");
    assert_eq!(name_or_short("undefined", "0123456789abcdef"), "0123456789ab");
    assert_eq!(name_or_short("", "abc"), "abc");
}

use qreview::series::{near_base, other_than_head};

#[test]
fn a_base_is_near_under_the_cap_and_a_head_is_no_base() {
    let local = Some(("b".to_owned(), "r".to_owned()));
    assert!(near_base(&local, Some(50), 50));
    assert!(!near_base(&local, Some(51), 50));
    assert!(near_base(&local, None, 50), "a count git could not give counts as none");
    assert!(!near_base(&None, Some(1), 50));
    assert!(other_than_head("a", "b"));
    assert!(!other_than_head("a", "a"));
}
