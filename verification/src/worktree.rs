//! The work that is not committed yet, as a change of the series.
//!
//! A reader reads their own series before pushing it. The last thing they
//! write is not in it: it sits in the working tree, and the commit that will
//! carry it does not exist. The caller gives that work a commit with
//! `git stash create` and `git commit-tree`; this module names it.

use vstd::prelude::*;
use crate::model::ChangeSummary;

verus! {

/// The key the store files the remarks under.
///
/// Not a `Change-Id` and not a sha: the commit changes at every keystroke,
/// and a remark on the work must outlive that.
pub const KEY: &'static str = "working-tree";

/// What the series pane calls it.
pub const SUBJECT: &'static str = "Uncommitted changes";

/// The dates the synthetic commit is stamped with.
///
/// Fixed, so the same working tree always gives the same commit. Nothing
/// shows this date: the change has none.
pub const EPOCH: &'static str = "@0 +0000";

/// The entry the series pane shows for it.
pub fn summary(hash: &str, author: &str) -> (out: ChangeSummary)
    ensures
        out@.key == KEY@,
        out@.change_id is None,
        out@.subject == SUBJECT@,
        out@.author == author@,
        out@.commit == hash@,
        out.patch_set_count == 1,
        out.comment_count == 0,
        !out.reviewed,
        !out.is_merge,
        out.worktree,
{
    ChangeSummary {
        key: KEY.to_owned(),
        change_id: None,
        subject: SUBJECT.to_owned(),
        author: author.to_owned(),
        commit: hash.to_owned(),
        patch_set_count: 1,
        comment_count: 0,
        reviewed: false,
        is_merge: false,
        worktree: true,
    }
}

} // verus!
