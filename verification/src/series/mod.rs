//! The series: which commits are under review, and where the walk stops.
//!
//! A series is not resolved once. It is a walk backwards from a head, loaded
//! in batches, that stops at a boundary and says which one.

pub mod refs;
pub mod walk;

use vstd::prelude::*;
use crate::model::{Boundary, ChangeSummary};
use crate::text::{
    chars_of, copy_string, extend_str, find, find_chars, lemma_find_occurs, parse_usize,
    parse_usize_chars, slice, string_of, trim, trim_chars,
};
use self::walk::Walk;

verus! {

/// How the caller asked for the series.
#[derive(Clone, Debug, Default)]
pub struct Options {
    /// `--base <rev>`.
    pub base: Option<String>,
    /// A revision, or a `revA..revB` range.
    pub rev: Option<String>,
    /// A resolved base longer than this is treated as a wrong base.
    pub max_commits: usize,
    /// The cap on the guess.
    pub guess_max: usize,
    /// The size of every batch after the first.
    pub batch_size: usize,
    /// The name of the integration branch, when the configuration names one.
    pub integration_branch: Option<String>,
    /// Commits named with `--prev`, treated as older patch sets.
    pub prevs: Vec<String>,
    /// Ask Gerrit for the patch sets already pushed.
    pub gerrit: bool,
    /// Show the tracked changes that are not committed as a change of the
    /// series, above the newest commit.
    pub worktree: bool,
}

impl Options {
    /// The options of a plain run: no base, no revision, the usual caps.
    pub fn new() -> (o: Self)
        ensures
            o.base is None,
            o.rev is None,
            o.max_commits == 50,
            o.guess_max == 10,
            o.batch_size == 5,
            o.integration_branch is None,
            o.prevs@.len() == 0,
            o.gerrit,
            o.worktree,
    {
        Options {
            base: None,
            rev: None,
            max_commits: 50,
            guess_max: 10,
            batch_size: 5,
            integration_branch: None,
            prevs: Vec::new(),
            gerrit: true,
            worktree: true,
        }
    }
}

/// One batch of the walk.
#[derive(Clone, Debug)]
pub struct Batch {
    pub changes: Vec<ChangeSummary>,
    pub boundary: Boundary,
}

/// What the walk knows before it starts.
#[derive(Clone, Debug)]
pub struct Plan {
    /// The newest commit of the series.
    pub head: String,
    /// The base the rules found, and the rule that found it.
    pub base: Option<(String, String)>,
    /// True when no rule found a base, so the walk guesses.
    pub guessing: bool,
    /// How many commits the first batch may load.
    pub limit: usize,
}

impl Walk {
    /// The batch the walk loaded, ending on the boundary it named.
    pub fn finish(self, boundary: Boundary) -> (b: Batch)
        ensures
            b.changes == self.changes,
            b.boundary == boundary,
    {
        Batch { changes: self.changes, boundary }
    }
}

/// The two ends a range argument names, as `str::split_once("..")` cuts it:
/// the base before the first `..`, trimmed, and the head after it, trimmed,
/// or `HEAD` when nothing follows.
pub open spec fn spec_range(rev: Seq<char>) -> Option<Result<(Seq<char>, Seq<char>), Seq<char>>> {
    match find(rev, ".."@) {
        None => None,
        Some(i) => {
            let from = trim(rev.subrange(0, i));
            let after = trim(rev.subrange(i + 2, rev.len() as int));
            let to = if after.len() == 0 {
                "HEAD"@
            } else {
                after
            };
            if from.len() == 0 {
                Some(Err(rev + " names no base"@))
            } else {
                Some(Ok((from, to)))
            }
        },
    }
}

/// Rule 2: a range argument names both ends. `None` when the argument is
/// not a range; an error when it names no base.
pub fn range_of(rev: &str) -> (out: Option<Result<(String, String), String>>)
    ensures
        match (out, spec_range(rev@)) {
            (None, None) => true,
            (Some(Ok((from, to))), Some(Ok((f, t)))) => from@ == f && to@ == t,
            (Some(Err(e)), Some(Err(m))) => e@ == m,
            _ => false,
        },
{
    let v = chars_of(rev);
    let dots = chars_of("..");
    let n = v.len();
    match find_chars(v.as_slice(), dots.as_slice()) {
        None => None,
        Some(i) => {
            proof {
                lemma_find_occurs(v@, dots@);
                reveal_strlit("..");
            }
            let from = trim_chars(slice(v.as_slice(), 0, i).as_slice());
            let after = trim_chars(slice(v.as_slice(), i + 2, n).as_slice());
            if from.len() == 0 {
                let mut msg = chars_of(rev);
                extend_str(&mut msg, " names no base");
                return Some(Err(string_of(msg.as_slice())));
            }
            let to = if after.len() == 0 {
                "HEAD".to_owned()
            } else {
                string_of(after.as_slice())
            };
            Some(Ok((string_of(from.as_slice()), to)))
        },
    }
}

/// Where the rules start, read from the arguments alone, before git is
/// asked anything.
#[derive(Clone, Debug)]
pub enum Start {
    /// Rule 2: a range argument names both ends, the base first.
    Range(String, String),
    /// Rule 1: `--base` wins over everything; the head is the revision
    /// argument, or `HEAD`, and then the base.
    Base(String, String),
    /// Rule 3: a single revision is that commit alone.
    Single(String),
    /// Rules 4 to 7: the head is `HEAD`, and the base is searched for.
    Search,
}

/// Which rule the arguments choose: a range first, and a range that names
/// no base is an error; then `--base`, with the revision or `HEAD` as the
/// head; then a single revision; and without either, the search from
/// `HEAD`.
pub fn first_rule(opts: &Options) -> (out: Result<Start, String>)
    ensures
        match opts.rev {
            Some(r) => match spec_range(r@) {
                Some(Ok((f, t))) => out matches Ok(Start::Range(a, b)) && a@ == f && b@ == t,
                Some(Err(m)) => out matches Err(e) && e@ == m,
                None => match opts.base {
                    Some(b) => out matches Ok(Start::Base(h, x)) && h@ == r@ && x@ == b@,
                    None => out matches Ok(Start::Single(h)) && h@ == r@,
                },
            },
            None => match opts.base {
                Some(b) => out matches Ok(Start::Base(h, x)) && h@ == "HEAD"@ && x@ == b@,
                None => out matches Ok(Start::Search),
            },
        },
{
    match &opts.rev {
        Some(r) => match range_of(r.as_str()) {
            Some(Ok((from, to))) => Ok(Start::Range(from, to)),
            Some(Err(e)) => Err(e),
            None => match &opts.base {
                Some(b) => Ok(Start::Base(copy_string(r), copy_string(b))),
                None => Ok(Start::Single(copy_string(r))),
            },
        },
        None => match &opts.base {
            Some(b) => Ok(Start::Base("HEAD".to_owned(), copy_string(b))),
            None => Ok(Start::Search),
        },
    }
}

/// The plan of a rule the arguments decide alone, once git has resolved
/// its ends: a range and `--base` load up to the cap, and a single
/// revision loads that commit and no more, down to its parent when it has
/// one.
pub fn plan_for(start: &Start, head: String, base: Option<String>, opts: &Options) -> (p: Plan)
    requires
        !(start is Search),
    ensures
        p.head == head,
        !p.guessing,
        match base {
            Some(b) => p.base matches Some((x, rule)) && x == b && rule@ == match start {
                Start::Range(..) => "the range argument"@,
                Start::Base(..) => "--base"@,
                _ => "the revision argument"@,
            },
            None => p.base is None,
        },
        p.limit == if start is Single {
            1
        } else {
            opts.max_commits
        },
{
    let (rule, limit) = match start {
        Start::Range(..) => ("the range argument", opts.max_commits),
        Start::Base(..) => ("--base", opts.max_commits),
        _ => ("the revision argument", 1),
    };
    let base = match base {
        Some(b) => Some((b, rule.to_owned())),
        None => None,
    };
    Plan { head, base, guessing: false, limit }
}

/// Rules 4 and 5: the base the clone itself answers, the upstream of the
/// branch before the integration branch, with the rule that found it.
pub fn local_base(upstream: Option<String>, integration: Option<String>) -> (out: Option<(String, String)>)
    ensures
        match out {
            Some((b, rule)) => match upstream {
                Some(u) => b@ == u@ && rule@ == "the upstream of the branch"@,
                None => (integration matches Some(i) && b@ == i@ && rule@
                    == "the merge base with the integration branch"@),
            },
            None => upstream is None && integration is None,
        },
{
    match upstream {
        Some(u) => Some((u, "the upstream of the branch".to_owned())),
        None => match integration {
            Some(i) => Some((i, "the merge base with the integration branch".to_owned())),
            None => None,
        },
    }
}

/// Whether the base the clone answered is near: a count of the commits
/// between it and the head that git could not give counts as none. With no
/// base, nothing is near.
pub fn near_base(local: &Option<(String, String)>, count: Option<usize>, max_commits: usize) -> (b: bool)
    ensures
        b == (local is Some && match count {
            Some(n) => n <= max_commits,
            None => true,
        }),
{
    match local {
        Some(_) => match count {
            Some(n) => n <= max_commits,
            None => true,
        },
        None => false,
    }
}

/// A branch whose tip is the head itself is no base: a series read on the
/// branch it was pushed to would be empty.
pub fn other_than_head(tip: &str, head: &str) -> (b: bool)
    ensures
        b == (tip@ != head@),
{
    !crate::text::same_str(tip, head)
}

/// Rule 6 is asked when the clone answered nothing, or answered far: a base
/// that far is usually the wrong branch, and Gerrit is the only place that
/// knows which branch the change was pushed to. A near answer costs no round
/// trip.
pub fn asks_gerrit(local: &Option<(String, String)>, near: bool) -> (b: bool)
    ensures
        b == !(local is Some && near),
{
    !(local.is_some() && near)
}

/// The plan once the rules have answered.
///
/// A near base of the clone stands. Otherwise the branch Gerrit has the
/// change on, and failing that whatever the clone answered. A base is never
/// thrown away for its length: a first batch that does not reach it stops on
/// a count. With no base at all the walk guesses, under its own cap.
pub fn settle(head: String, local: Option<(String, String)>, near: bool, gerrit: Option<String>, opts: &Options) -> (p: Plan)
    ensures
        p.head == head,
        local is Some && near ==> p.base == local,
        !(local is Some && near) && gerrit is Some ==> (p.base matches Some((b, rule)) && b == gerrit->0
            && rule@ == "the branch Gerrit has the change on"@),
        !(local is Some && near) && gerrit is None ==> p.base == local,
        p.guessing == (p.base is None),
        p.limit == if p.base is None {
            opts.guess_max
        } else {
            opts.max_commits
        },
{
    let found = if local.is_some() && near {
        local
    } else {
        match gerrit {
            Some(b) => Some((b, "the branch Gerrit has the change on".to_owned())),
            None => local,
        }
    };
    let guessing = found.is_none();
    let limit = if guessing {
        opts.guess_max
    } else {
        opts.max_commits
    };
    Plan { head, base: found, guessing, limit }
}

/// `origin/` before a branch name.
fn on_origin(branch: &String) -> (out: String)
    ensures
        out@ == "origin/"@ + branch@,
{
    let mut v = chars_of("origin/");
    extend_str(&mut v, branch.as_str());
    string_of(v.as_slice())
}

/// A branch on `origin` first, then as it is named.
pub open spec fn both_names(branch: Option<String>) -> Seq<Seq<char>> {
    match branch {
        Some(b) => seq!["origin/"@ + b@, b@],
        None => Seq::empty(),
    }
}

/// The names rule 5 tries, in order: the branch of `.gerrit-branch`, then the
/// configured one, each on `origin` first, then `origin/HEAD`.
pub fn integration_names(gerrit_branch: Option<String>, configured: Option<String>) -> (out: Vec<String>)
    ensures
        crate::git::commit::strings_view(out@) == both_names(gerrit_branch) + both_names(configured)
            + seq!["origin/HEAD"@],
{
    let mut names: Vec<String> = Vec::new();
    let ghost a = both_names(gerrit_branch);
    let ghost b = both_names(configured);
    if let Some(g) = gerrit_branch {
        names.push(on_origin(&g));
        names.push(g);
    }
    assert(crate::git::commit::strings_view(names@) =~= a);
    if let Some(c) = configured {
        names.push(on_origin(&c));
        names.push(c);
    }
    assert(crate::git::commit::strings_view(names@) =~= a + b);
    names.push("origin/HEAD".to_owned());
    assert(crate::git::commit::strings_view(names@) =~= a + b + seq!["origin/HEAD"@]);
    names
}

/// What `git merge-base` answered: the commit, trimmed, when there is one.
pub fn merge_base_of(out: &str) -> (base: Option<String>)
    ensures
        match base {
            Some(b) => b@ == trim(out@) && b@.len() > 0,
            None => trim(out@).len() == 0,
        },
{
    let t = trim_chars(chars_of(out).as_slice());
    if t.len() == 0 {
        None
    } else {
        Some(string_of(t.as_slice()))
    }
}

/// What `git rev-list --count` answered: the count, when it is a number
/// above zero.
pub fn count_of(out: &str) -> (n: Option<usize>)
    ensures
        n == match parse_usize(trim(out@)) {
            Some(v) => if v > 0 {
                Some(v)
            } else {
                None
            },
            None => None,
        },
{
    let t = trim_chars(chars_of(out).as_slice());
    match parse_usize_chars(t.as_slice()) {
        Some(v) => if v > 0 {
            Some(v)
        } else {
            None
        },
        None => None,
    }
}

/// Who the series belongs to: the author of its newest commit, when the
/// commit names one.
pub fn author_of(email: String) -> (out: Option<String>)
    ensures
        match out {
            Some(a) => a == email && email@.len() > 0,
            None => email@.len() == 0,
        },
{
    if email.as_str().is_empty() {
        None
    } else {
        Some(email)
    }
}

} // verus!
