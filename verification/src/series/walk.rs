//! The walk of a series, as decisions.
//!
//! The walk goes backwards from a head, following the first parent, and
//! stops at the first boundary. Reading a commit, a tag or a remote branch is
//! the caller's work: the walk says what it needs next, the caller reads it
//! and hands it back, until the walk names the boundary.

use vstd::prelude::*;
use crate::git::commit::{spec_change_id, spec_key, CommitInfo, CommitView};
use crate::lang::Table;
use crate::model::{opt_view, summaries_view, Boundary, BoundaryKind, ChangeSummary, ChangeSummaryView};
use crate::text::{chars_of, copy_opt, copy_string, decimal, decimal_of, extend, extend_str, same_str, slice, string_of};

verus! {

/// What the walk needs next.
pub enum Ask {
    /// Read this commit and hand it back with `Walk::read`.
    Commit(String),
    /// Count the first-parent commits in `from..to` and hand the count back
    /// with `Walk::counted`.
    Count(String, String),
    /// Read which tag names each commit and hand the table back with
    /// `Walk::tagged`.
    Tags,
    /// Read the remote branches that hold the head and hand them back with
    /// `Walk::held`.
    Holding,
    /// Find a remote branch that holds this commit and not the head, and
    /// hand it back with `Walk::remote`.
    Remote(String),
    /// The walk is over. The caller adds the subject of the commit the
    /// boundary names, and for a merge what the card shows of it.
    Stop(Boundary),
}

/// A boundary as the walk decides it.
pub struct Stop {
    pub kind: BoundaryKind,
    pub commit: Option<Seq<char>>,
    pub remaining: Option<usize>,
    pub reason: Seq<char>,
    pub guessed: bool,
}

/// What the walk asks, with its text as characters.
pub enum Asked {
    Commit(Seq<char>),
    Count(Seq<char>, Seq<char>),
    Tags,
    Holding,
    Remote(Seq<char>),
    Stop(Stop),
}

/// The view of what the walk asks. A boundary it names carries no subject
/// and no merge yet: those are read by the caller.
pub open spec fn asked(a: Ask) -> Asked {
    match a {
        Ask::Commit(h) => Asked::Commit(h@),
        Ask::Count(from, to) => Asked::Count(from@, to@),
        Ask::Tags => Asked::Tags,
        Ask::Holding => Asked::Holding,
        Ask::Remote(h) => Asked::Remote(h@),
        Ask::Stop(b) => Asked::Stop(
            Stop {
                kind: b.kind,
                commit: opt_view(b.commit),
                remaining: b.remaining,
                reason: b.reason@,
                guessed: b.guessed,
            },
        ),
    }
}

/// The first twelve characters of a hash, or all of a shorter one.
pub open spec fn short(hash: Seq<char>) -> Seq<char> {
    if hash.len() <= 12 {
        hash
    } else {
        hash.subrange(0, 12)
    }
}

/// A commit as a change of the series. The store fills in the counts and
/// the mark; the walk knows nothing about comments.
pub open spec fn summary_of(c: CommitView) -> ChangeSummaryView {
    ChangeSummaryView {
        key: spec_key(c),
        change_id: spec_change_id(c.message),
        subject: c.subject,
        author: c.author,
        commit: c.hash,
        patch_set_count: 1,
        comment_count: 0,
        reviewed: false,
        is_merge: c.parents.len() > 1,
        worktree: false,
    }
}

/// A commit as a change of the series.
pub fn summary(info: &CommitInfo) -> (out: ChangeSummary)
    ensures
        out@ == summary_of(info@),
{
    ChangeSummary {
        key: info.key(),
        change_id: info.change_id(),
        subject: copy_string(&info.subject),
        author: copy_string(&info.author),
        commit: copy_string(&info.hash),
        patch_set_count: 1,
        comment_count: 0,
        reviewed: false,
        is_merge: info.is_merge(),
        worktree: false,
    }
}

/// The walk of one batch.
pub struct Walk {
    /// The base the plan found: the end of the series.
    pub base: Option<String>,
    /// The rule that found the base, which the card names.
    pub rule: String,
    /// How many commits the batch may load.
    pub limit: usize,
    /// The first batch of a plan that found no base: the only batch that
    /// ends on the two soft signals.
    pub guess: bool,
    /// The address the soft signal compares against.
    pub author: Option<String>,
    /// The changes loaded so far, newest first.
    pub changes: Vec<ChangeSummary>,
    /// The newest commit not loaded yet.
    pub current: Option<String>,
    /// The current commit, once read.
    pub info: Option<CommitInfo>,
    /// The first tag on each commit, once read.
    pub tags: Option<Table>,
    /// The remote branches that hold the head, once read.
    pub holding: Option<Vec<String>>,
    /// The remote branch that holds the current commit and not the head,
    /// once asked.
    pub remote: Option<Option<String>>,
    /// The count of commits left to the base, once asked.
    pub left: Option<Option<usize>>,
    /// The commit the batch starts from.
    pub start: Ghost<Seq<char>>,
    /// The first parent of each change loaded, in their order; none for a
    /// commit without a parent.
    pub trail: Ghost<Seq<Option<Seq<char>>>>,
}

impl Walk {
    /// The walk stands where it can go on: never more than the limit loaded,
    /// and a commit read only under the limit.
    pub open spec fn wf(&self) -> bool {
        &&& self.changes@.len() <= self.limit
        &&& self.info is Some ==> self.current is Some && self.changes@.len() < self.limit
            && self.info->0@.hash == self.hash() && opt_view(self.base) != Some(self.hash())
        &&& self.chain()
    }

    /// The changes loaded are the first-parent chain from the start, none of
    /// them the base, and the walk stands on the parent of the last one.
    pub open spec fn chain(&self) -> bool {
        let cs = summaries_view(self.changes@);
        &&& self.trail@.len() == cs.len()
        &&& cs.len() == 0 ==> opt_view(self.current) == Some(self.start@)
        &&& cs.len() > 0 ==> cs[0].commit == self.start@ && opt_view(self.current) == self.trail@.last()
        &&& forall|i: int| 0 <= i < cs.len() - 1 ==> self.trail@[i] == Some(#[trigger] cs[i + 1].commit)
        &&& forall|i: int| 0 <= i < cs.len() ==> opt_view(self.base) != Some(#[trigger] cs[i].commit)
    }

    /// The commit the walk stands on.
    pub open spec fn hash(&self) -> Seq<char> {
        self.current->0@
    }

    /// What the walk asks while it stands before a commit it has not read.
    pub open spec fn ask_before(&self) -> Asked {
        match self.current {
            None => Asked::Stop(
                Stop {
                    kind: BoundaryKind::Root,
                    commit: None,
                    remaining: None,
                    reason: "the history has no parent left"@,
                    guessed: false,
                },
            ),
            Some(h) => if opt_view(self.base) == Some(h@) {
                Asked::Stop(
                    Stop {
                        kind: BoundaryKind::Base,
                        commit: Some(h@),
                        remaining: None,
                        reason: self.rule@,
                        guessed: false,
                    },
                )
            } else if self.changes@.len() == self.limit {
                if self.guess {
                    Asked::Stop(
                        Stop {
                            kind: BoundaryKind::Guess,
                            commit: Some(h@),
                            remaining: None,
                            reason: "the guess stopped at its cap of "@ + decimal(self.limit as nat),
                            guessed: true,
                        },
                    )
                } else {
                    match self.base {
                        Some(b) => match self.left {
                            None => Asked::Count(b@, h@),
                            Some(left) => Asked::Stop(
                                Stop {
                                    kind: BoundaryKind::Batch,
                                    commit: Some(h@),
                                    remaining: left,
                                    reason: match left {
                                        Some(n) => decimal(self.limit as nat) + " commits loaded, "@
                                            + decimal(n as nat) + " to the base"@,
                                        None => decimal(self.limit as nat) + " commits loaded"@,
                                    },
                                    guessed: false,
                                },
                            ),
                        },
                        None => Asked::Stop(
                            Stop {
                                kind: BoundaryKind::Batch,
                                commit: Some(h@),
                                remaining: None,
                                reason: decimal(self.limit as nat) + " commits loaded"@,
                                guessed: false,
                            },
                        ),
                    }
                }
            } else {
                Asked::Commit(h@)
            },
        }
    }

    /// The commit read is loaded and the walk goes on to its parent: it is
    /// not a merge, no tag names it, and in a guess neither soft signal
    /// fires. The head of a batch is loaded whatever tag it carries.
    pub open spec fn advances(&self, c: CommitView) -> bool {
        let n = self.changes@.len();
        let h = self.hash();
        &&& c.parents.len() <= 1
        &&& n > 0 ==> (self.tags is Some && self.tags->0.holds(h) is None)
        &&& (self.guess && n > 0) ==> (self.holding is Some && self.remote == Some(None::<String>)
            && !(self.author is Some && self.author->0@.len() > 0 && c.email != self.author->0@))
    }

    /// What the walk asks once the commit it stands on is read and holds it.
    pub open spec fn ask_at(&self, c: CommitView) -> Asked {
        let n = self.changes@.len();
        let h = self.hash();
        if c.parents.len() > 1 {
            Asked::Stop(
                Stop {
                    kind: BoundaryKind::Merge,
                    commit: Some(c.parents[0]),
                    remaining: None,
                    reason: "under the merge "@ + short(h),
                    guessed: false,
                },
            )
        } else if n > 0 && self.tags is None {
            Asked::Tags
        } else if n > 0 && self.tags->0.holds(h) is Some {
            Asked::Stop(
                Stop {
                    kind: BoundaryKind::Tag,
                    commit: Some(h),
                    remaining: None,
                    reason: "the tag "@ + self.tags->0.holds(h)->0,
                    guessed: false,
                },
            )
        } else if self.guess && n > 0 && self.holding is None {
            Asked::Holding
        } else if self.guess && n > 0 && self.remote is None {
            Asked::Remote(h)
        } else if self.guess && n > 0 && self.remote->0 is Some {
            Asked::Stop(
                Stop {
                    kind: BoundaryKind::Guess,
                    commit: Some(h),
                    remaining: None,
                    reason: "on "@ + self.remote->0->0@,
                    guessed: true,
                },
            )
        } else {
            Asked::Stop(
                Stop {
                    kind: BoundaryKind::Guess,
                    commit: Some(h),
                    remaining: None,
                    reason: "written by "@ + c.author,
                    guessed: true,
                },
            )
        }
    }

    /// A new walk from `start`, the newest commit not loaded yet.
    pub fn new(base: Option<String>, rule: String, start: String, limit: usize, guess: bool, author: Option<String>) -> (w: Walk)
        ensures
            w.wf(),
            opt_view(w.base) == opt_view(base),
            w.rule@ == rule@,
            w.limit == limit,
            w.guess == guess,
            opt_view(w.author) == opt_view(author),
            w.changes@.len() == 0,
            w.current matches Some(s) && s@ == start@,
            w.info is None,
            w.tags is None,
            w.holding is None,
            w.remote is None,
            w.left is None,
            w.start@ == start@,
            w.trail@.len() == 0,
    {
        let ghost sv = start@;
        Walk {
            base,
            rule,
            limit,
            guess,
            author,
            changes: Vec::new(),
            current: Some(start),
            info: None,
            tags: None,
            holding: None,
            remote: None,
            left: None,
            start: Ghost(sv),
            trail: Ghost(Seq::empty()),
        }
    }

    /// The boundary named `kind` on `commit`.
    fn stop(kind: BoundaryKind, commit: Option<String>, remaining: Option<usize>, reason: Vec<char>, guessed: bool) -> (a: Ask)
        ensures
            asked(a) == Asked::Stop(
                Stop { kind, commit: opt_view(commit), remaining, reason: reason@, guessed },
            ),
    {
        Ask::Stop(
            Boundary {
                kind,
                commit,
                subject: None,
                remaining,
                reason: string_of(reason.as_slice()),
                guessed,
                merge: None,
            },
        )
    }

    /// What the walk asks while it stands before a commit it has not read.
    fn before(&self) -> (a: Ask)
        ensures
            asked(a) == self.ask_before(),
    {
        match &self.current {
            None => Self::stop(BoundaryKind::Root, None, None, chars_of("the history has no parent left"), false),
            Some(h) => {
                let at_base = match &self.base {
                    Some(b) => same_str(b.as_str(), h.as_str()),
                    None => false,
                };
                if at_base {
                    return Self::stop(
                        BoundaryKind::Base,
                        Some(copy_string(h)),
                        None,
                        chars_of(self.rule.as_str()),
                        false,
                    );
                }
                if self.changes.len() == self.limit {
                    if self.guess {
                        let mut reason = chars_of("the guess stopped at its cap of ");
                        let n = decimal_of(self.limit);
                        extend(&mut reason, n.as_slice());
                        return Self::stop(BoundaryKind::Guess, Some(copy_string(h)), None, reason, true);
                    }
                    let mut reason = decimal_of(self.limit);
                    match &self.base {
                        Some(b) => match self.left {
                            None => Ask::Count(copy_string(b), copy_string(h)),
                            Some(left) => {
                                match left {
                                    Some(n) => {
                                        extend_str(&mut reason, " commits loaded, ");
                                        let d = decimal_of(n);
                                        extend(&mut reason, d.as_slice());
                                        extend_str(&mut reason, " to the base");
                                    },
                                    None => {
                                        extend_str(&mut reason, " commits loaded");
                                    },
                                }
                                Self::stop(BoundaryKind::Batch, Some(copy_string(h)), left, reason, false)
                            },
                        },
                        None => {
                            extend_str(&mut reason, " commits loaded");
                            Self::stop(BoundaryKind::Batch, Some(copy_string(h)), None, reason, false)
                        },
                    }
                } else {
                    Ask::Commit(copy_string(h))
                }
            },
        }
    }

    /// What the walk asks once the commit it stands on is read and ends the
    /// walk or needs more; nothing is loaded, but for a merge, which is a
    /// change like any other and is loaded before the walk stops under it.
    fn at(&mut self, info: CommitInfo) -> (a: Ask)
        requires
            old(self).wf(),
            old(self).info is None,
            old(self).current is Some,
            old(self).changes@.len() < old(self).limit,
            !old(self).advances(info@),
            info@.hash == old(self).hash(),
            opt_view(old(self).base) != Some(old(self).hash()),
        ensures
            final(self).start == old(self).start,
            info@.parents.len() > 1 ==> final(self).trail@ == old(self).trail@.push(Some(info@.parents[0])),
            info@.parents.len() <= 1 ==> final(self).trail == old(self).trail,
            asked(a) == old(self).ask_at(info@),
            final(self).base == old(self).base,
            final(self).rule == old(self).rule,
            final(self).limit == old(self).limit,
            final(self).guess == old(self).guess,
            final(self).author == old(self).author,
            final(self).tags == old(self).tags,
            final(self).holding == old(self).holding,
            final(self).left == old(self).left,
            final(self).remote == old(self).remote,
            info@.parents.len() > 1 ==> summaries_view(final(self).changes@) == summaries_view(
                old(self).changes@,
            ).push(summary_of(info@)) && final(self).info is None && opt_view(final(self).current) == Some(
                info@.parents[0],
            ),
            info@.parents.len() <= 1 ==> final(self).current == old(self).current,
            info@.parents.len() <= 1 ==> final(self).changes == old(self).changes
                && final(self).info == Some(info),
            final(self).wf(),
    {
        let h = copy_string(self.current.as_ref().unwrap());
        if info.is_merge() {
            let under = copy_string(&info.parents[0]);
            let mut reason = chars_of("under the merge ");
            let hv = chars_of(h.as_str());
            let cut = if hv.len() <= 12 { hv } else { slice(hv.as_slice(), 0, 12) };
            extend(&mut reason, cut.as_slice());
            let s = summary(&info);
            let ghost before = self.changes@;
            let ghost old_trail = self.trail@;
            self.changes.push(s);
            assert(summaries_view(self.changes@) =~= summaries_view(before).push(summary_of(info@)));
            self.current = Some(copy_string(&under));
            proof {
                self.trail = Ghost(old_trail.push(Some(info@.parents[0])));
                assert(summaries_view(self.changes@).last().commit == h@);
            }
            return Self::stop(BoundaryKind::Merge, Some(under), None, reason, false);
        }
        let n = self.changes.len();
        if n > 0 {
            match &self.tags {
                None => {
                    self.info = Some(info);
                    return Ask::Tags;
                },
                Some(t) => match t.get(h.as_str()) {
                    Some(name) => {
                        let mut reason = chars_of("the tag ");
                        extend_str(&mut reason, name.as_str());
                        let a = Self::stop(BoundaryKind::Tag, Some(h), None, reason, false);
                        self.info = Some(info);
                        return a;
                    },
                    None => {},
                },
            }
        }
        if self.guess && n > 0 {
            if self.holding.is_none() {
                self.info = Some(info);
                return Ask::Holding;
            }
            match &self.remote {
                None => {
                    self.info = Some(info);
                    return Ask::Remote(h);
                },
                Some(Some(name)) => {
                    let mut reason = chars_of("on ");
                    extend_str(&mut reason, name.as_str());
                    let a = Self::stop(BoundaryKind::Guess, Some(h), None, reason, true);
                    self.info = Some(info);
                    return a;
                },
                Some(None) => {},
            }
        }
        let mut reason = chars_of("written by ");
        extend_str(&mut reason, info.author.as_str());
        let a = Self::stop(BoundaryKind::Guess, Some(h), None, reason, true);
        self.info = Some(info);
        a
    }

    /// Decide, from what the walk holds, what it needs next.
    ///
    /// Standing before a commit it has not read, the walk stops at the base,
    /// at its limit, or at the root, and otherwise asks for the commit. Once
    /// the commit is read it stops under a merge, on a tag under the head,
    /// and in a guess on a soft signal, asking first for what those need;
    /// otherwise it loads the commit, goes on to its first parent and decides
    /// again.
    pub fn next(&mut self) -> (a: Ask)
        requires
            old(self).wf(),
        ensures
            final(self).start == old(self).start,
            summaries_view(final(self).changes@) == summaries_view(old(self).changes@) ==> final(self).trail == old(self).trail,
            summaries_view(final(self).changes@) != summaries_view(old(self).changes@) ==> final(self).trail@ == old(self).trail@.push(
                if old(self).info->0@.parents.len() > 0 {
                    Some(old(self).info->0@.parents[0])
                } else {
                    None
                },
            ),
            final(self).wf(),
            final(self).base == old(self).base,
            final(self).rule == old(self).rule,
            final(self).limit == old(self).limit,
            final(self).guess == old(self).guess,
            final(self).author == old(self).author,
            final(self).tags == old(self).tags,
            final(self).holding == old(self).holding,
            final(self).left == old(self).left,
            old(self).info is None ==> {
                &&& asked(a) == old(self).ask_before()
                &&& final(self).changes == old(self).changes
                &&& final(self).current == old(self).current
                &&& final(self).info is None
                &&& final(self).remote == old(self).remote
            },
            old(self).info is Some && old(self).advances(old(self).info->0@) ==> {
                &&& summaries_view(final(self).changes@) == summaries_view(old(self).changes@).push(
                    summary_of(old(self).info->0@),
                )
                &&& opt_view(final(self).current) == (if old(self).info->0@.parents.len() > 0 {
                    Some(old(self).info->0@.parents[0])
                } else {
                    None
                })
                &&& final(self).info is None
                &&& final(self).remote is None
                &&& asked(a) == final(self).ask_before()
            },
            old(self).info is Some && !old(self).advances(old(self).info->0@) ==> {
                &&& asked(a) == old(self).ask_at(old(self).info->0@)
                &&& final(self).remote == old(self).remote
                &&& old(self).info->0@.parents.len() > 1 ==> summaries_view(final(self).changes@)
                    == summaries_view(old(self).changes@).push(summary_of(old(self).info->0@))
                    && final(self).info is None && opt_view(final(self).current) == Some(old(self).info->0@.parents[0])
                &&& old(self).info->0@.parents.len() <= 1 ==> final(self).changes == old(self).changes
                    && final(self).info == old(self).info && final(self).current == old(self).current
            },
    {
        let taken = self.info.take();
        match taken {
            None => self.before(),
            Some(info) => {
                let n = self.changes.len();
                let ghost h = self.hash();
                let mut goes_on = !info.is_merge();
                if goes_on && n > 0 {
                    goes_on = match &self.tags {
                        Some(t) => t.get(self.current.as_ref().unwrap().as_str()).is_none(),
                        None => false,
                    };
                }
                if goes_on && self.guess && n > 0 {
                    goes_on = self.holding.is_some() && match &self.remote {
                        Some(None) => true,
                        _ => false,
                    };
                    if goes_on {
                        goes_on = match &self.author {
                            Some(a) => a.as_str().is_empty() || same_str(info.email.as_str(), a.as_str()),
                            None => true,
                        };
                    }
                }
                assert(goes_on == old(self).advances(info@));
                if !goes_on {
                    return self.at(info);
                }
                let s = summary(&info);
                let parent = if info.parents.len() > 0 {
                    Some(copy_string(&info.parents[0]))
                } else {
                    None
                };
                let ghost before = self.changes@;
                let ghost old_trail = self.trail@;
                self.changes.push(s);
                assert(summaries_view(self.changes@) =~= summaries_view(before).push(summary_of(info@)));
                self.current = parent;
                proof {
                    self.trail = Ghost(old_trail.push(if info@.parents.len() > 0 {
                        Some(info@.parents[0])
                    } else {
                        None
                    }));
                    assert(summaries_view(self.changes@).last().commit == h);
                }
                self.remote = None;
                self.before()
            },
        }
    }

    /// Hand back the commit the walk asked for.
    pub fn read(&mut self, info: CommitInfo)
        requires
            old(self).wf(),
            old(self).current is Some,
            old(self).changes@.len() < old(self).limit,
            info@.hash == old(self).hash(),
            opt_view(old(self).base) != Some(old(self).hash()),
        ensures
            final(self).start == old(self).start,
            final(self).trail == old(self).trail,
            final(self).wf(),
            final(self).info == Some(info),
            final(self).base == old(self).base,
            final(self).rule == old(self).rule,
            final(self).limit == old(self).limit,
            final(self).guess == old(self).guess,
            final(self).author == old(self).author,
            final(self).changes == old(self).changes,
            final(self).current == old(self).current,
            final(self).tags == old(self).tags,
            final(self).holding == old(self).holding,
            final(self).remote == old(self).remote,
            final(self).left == old(self).left,
    {
        self.info = Some(info);
    }

    /// Hand back the count of commits left to the base, when git gave one.
    pub fn counted(&mut self, left: Option<usize>)
        requires
            old(self).wf(),
        ensures
            final(self).start == old(self).start,
            final(self).trail == old(self).trail,
            final(self).wf(),
            final(self).left == Some(left),
            final(self).base == old(self).base,
            final(self).rule == old(self).rule,
            final(self).limit == old(self).limit,
            final(self).guess == old(self).guess,
            final(self).author == old(self).author,
            final(self).changes == old(self).changes,
            final(self).current == old(self).current,
            final(self).info == old(self).info,
            final(self).tags == old(self).tags,
            final(self).holding == old(self).holding,
            final(self).remote == old(self).remote,
    {
        self.left = Some(left);
    }

    /// Hand back the first tag on each commit.
    pub fn tagged(&mut self, tags: Table)
        requires
            old(self).wf(),
        ensures
            final(self).start == old(self).start,
            final(self).trail == old(self).trail,
            final(self).wf(),
            final(self).tags == Some(tags),
            final(self).base == old(self).base,
            final(self).rule == old(self).rule,
            final(self).limit == old(self).limit,
            final(self).guess == old(self).guess,
            final(self).author == old(self).author,
            final(self).changes == old(self).changes,
            final(self).current == old(self).current,
            final(self).info == old(self).info,
            final(self).holding == old(self).holding,
            final(self).remote == old(self).remote,
            final(self).left == old(self).left,
    {
        self.tags = Some(tags);
    }

    /// Hand back the remote branches that hold the head.
    pub fn held(&mut self, names: Vec<String>)
        requires
            old(self).wf(),
        ensures
            final(self).start == old(self).start,
            final(self).trail == old(self).trail,
            final(self).wf(),
            final(self).holding == Some(names),
            final(self).base == old(self).base,
            final(self).rule == old(self).rule,
            final(self).limit == old(self).limit,
            final(self).guess == old(self).guess,
            final(self).author == old(self).author,
            final(self).changes == old(self).changes,
            final(self).current == old(self).current,
            final(self).info == old(self).info,
            final(self).tags == old(self).tags,
            final(self).remote == old(self).remote,
            final(self).left == old(self).left,
    {
        self.holding = Some(names);
    }

    /// Hand back the remote branch that holds the current commit and not
    /// the head, when there is one.
    pub fn found(&mut self, remote: Option<String>)
        requires
            old(self).wf(),
        ensures
            final(self).start == old(self).start,
            final(self).trail == old(self).trail,
            final(self).wf(),
            final(self).remote == Some(remote),
            final(self).base == old(self).base,
            final(self).rule == old(self).rule,
            final(self).limit == old(self).limit,
            final(self).guess == old(self).guess,
            final(self).author == old(self).author,
            final(self).changes == old(self).changes,
            final(self).current == old(self).current,
            final(self).info == old(self).info,
            final(self).tags == old(self).tags,
            final(self).holding == old(self).holding,
            final(self).left == old(self).left,
    {
        self.remote = Some(remote);
    }
}

/// The base is the end of the series, whatever else the commit is.
pub proof fn law_the_base_ends_the_series(w: Walk)
    requires
        w.current is Some,
        opt_view(w.base) == Some(w.hash()),
    ensures
        w.ask_before() matches Asked::Stop(s) && s.kind == BoundaryKind::Base && s.commit == Some(
            w.hash(),
        ),
{
}

/// The walk never crosses a merge: a commit it goes past has one parent at
/// most, and a merge it reads ends the walk under its first parent.
pub proof fn law_the_walk_never_crosses_a_merge(w: Walk, c: CommitView)
    ensures
        w.advances(c) ==> c.parents.len() <= 1,
        c.parents.len() > 1 ==> (w.ask_at(c) matches Asked::Stop(s) && s.kind == BoundaryKind::Merge
            && s.commit == Some(c.parents[0])),
{
}

/// Only the guess ends on a soft signal: a walk that is not a guess never
/// asks where a commit was pushed and never stops with a guess.
pub proof fn law_only_a_guess_stops_on_a_soft_signal(w: Walk, c: CommitView)
    requires
        !w.guess,
        !w.advances(c),
    ensures
        !(w.ask_at(c) is Holding),
        !(w.ask_at(c) is Remote),
        w.ask_at(c) matches Asked::Stop(s) ==> s.kind != BoundaryKind::Guess && !s.guessed,
        w.ask_before() matches Asked::Stop(s) ==> s.kind != BoundaryKind::Guess && !s.guessed,
{
}

/// The head of a batch is loaded whatever tag it carries: only a tag under
/// the head ends a batch.
pub proof fn law_a_tag_on_the_head_ends_nothing(w: Walk, c: CommitView)
    requires
        w.changes@.len() == 0,
        c.parents.len() <= 1,
    ensures
        w.advances(c),
{
}

/// A boundary names the commit under it, but at the root, which has none;
/// and only a guess stops with a guess. (A commit the walk goes past is
/// never asked about.)
pub proof fn law_a_boundary_names_its_commit(w: Walk, c: CommitView)
    ensures
        w.ask_before() matches Asked::Stop(s) ==> ((s.commit is None) == (s.kind == BoundaryKind::Root)
            && (s.guessed ==> w.guess)),
        w.current is Some && !w.advances(c) ==> (w.ask_at(c) matches Asked::Stop(s) ==> (s.commit is Some && s.kind
            != BoundaryKind::Root && (s.guessed ==> w.guess))),
{
}

/// A batch is the first-parent chain from the start: the first change is
/// the commit the walk started from, each change after it is the first
/// parent of the one before, the walk stands on the first parent of the last
/// one, no change is the base, and no more than the limit are loaded.
pub proof fn law_a_batch_is_the_first_parent_chain(w: Walk)
    requires
        w.wf(),
    ensures
        w.changes@.len() <= w.limit,
        w.changes@.len() > 0 ==> w.changes@[0].commit@ == w.start@,
        forall|i: int| 0 <= i < w.changes@.len() - 1 ==> w.trail@[i] == Some(#[trigger] w.changes@[i + 1].commit@),
        w.changes@.len() > 0 ==> opt_view(w.current) == w.trail@.last(),
        forall|i: int| 0 <= i < w.changes@.len() ==> opt_view(w.base) != Some(#[trigger] w.changes@[i].commit@),
{
    let cs = summaries_view(w.changes@);
    if w.changes@.len() > 0 {
        assert(cs[0] == w.changes@[0]@);
    }
    assert forall|i: int| 0 <= i < w.changes@.len() - 1 implies w.trail@[i] == Some(#[trigger] w.changes@[i + 1].commit@) by {
        assert(cs[i + 1] == w.changes@[i + 1]@);
        assert(w.trail@[i] == Some(cs[i + 1].commit));
    }
    assert forall|i: int| 0 <= i < w.changes@.len() implies opt_view(w.base) != Some(#[trigger] w.changes@[i].commit@) by {
        assert(cs[i] == w.changes@[i]@);
        assert(opt_view(w.base) != Some(cs[i].commit));
    }
}

/// Before a commit it has not read, the walk asks for it only under its
/// limit, so a batch never loads more than the limit.
pub proof fn law_a_batch_stays_under_its_limit(w: Walk)
    requires
        w.wf(),
    ensures
        w.ask_before() is Commit ==> w.changes@.len() < w.limit,
{
}

} // verus!
