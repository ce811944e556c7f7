//! Reviewing a merge.
//!
//! The default base of a merge is not a parent. It is the tree git produces
//! on its own from the two parents, so the diff shows the work a person did,
//! which is the conflict resolution and nothing else.

use vstd::prelude::*;
use crate::git::commit::{is_hex, CommitInfo};
use crate::text::{chars_of, copy_string, extend_str, lines, lines_of, string_of, trim, trim_chars};

verus! {

/// What a merge is diffed against.
#[derive(Clone, Copy, Debug, PartialEq, Eq, Structural)]
pub enum Base {
    /// The tree git merges on its own. The conflict resolution, and nothing
    /// that was already reviewed on either branch.
    AutoMerge,
    Parent(usize),
}

/// The tree `git merge-tree --write-tree` printed: its first line, trimmed,
/// when that is forty hexadecimal digits. A conflict still prints the tree
/// first, which is exactly the case to show.
pub open spec fn spec_merge_tree(out: Seq<char>) -> Option<Seq<char>> {
    let ls = lines(out);
    if ls.len() == 0 {
        None
    } else {
        let first = trim(ls[0]);
        if first.len() == 40 && forall|i: int| 0 <= i < 40 ==> is_hex(#[trigger] first[i]) {
            Some(first)
        } else {
            None
        }
    }
}

/// The tree `git merge-tree --write-tree` printed, when it printed one.
pub fn merge_tree_of(out: &str) -> (tree: Option<String>)
    ensures
        crate::model::opt_view(tree) == spec_merge_tree(out@),
{
    let ls = lines_of(chars_of(out).as_slice());
    if ls.len() == 0 {
        return None;
    }
    let first = trim_chars(ls[0].as_slice());
    let ghost want = trim(lines(out@)[0]);
    assert(first@ == want);
    if first.len() != 40 {
        return None;
    }
    let mut i: usize = 0;
    while i < 40
        invariant
            i <= 40,
            first@.len() == 40,
            first@ == want,
            lines(out@).len() != 0,
            want == trim(lines(out@)[0]),
            forall|k: int| 0 <= k < i ==> is_hex(#[trigger] first@[k]),
        decreases 40 - i,
    {
        let c = first[i];
        if !(('0' <= c && c <= '9') || ('a' <= c && c <= 'f') || ('A' <= c && c <= 'F')) {
            assert(!is_hex(first@[i as int]));
            return None;
        }
        i = i + 1;
    }
    Some(string_of(first.as_slice()))
}

/// The parent a reader picked, counted from 1; 0 reads as the first.
pub fn parent_of(info: &CommitInfo, n: usize) -> (out: Option<String>)
    ensures
        crate::model::opt_view(out) == {
            let k = if n >= 1 { n - 1 } else { 0 };
            if k < info@.parents.len() {
                Some(info@.parents[k])
            } else {
                None::<Seq<char>>
            }
        },
{
    let k = if n >= 1 { n - 1 } else { 0 };
    if k < info.parents.len() {
        Some(copy_string(&info.parents[k]))
    } else {
        None
    }
}

/// The range of the commits a merge brings in: from its first parent to its
/// second. A commit with fewer parents brings in nothing.
pub fn brought_in(info: &CommitInfo) -> (out: Option<String>)
    ensures
        crate::model::opt_view(out) == if info@.parents.len() >= 2 {
            Some(info@.parents[0] + ".."@ + info@.parents[1])
        } else {
            None::<Seq<char>>
        },
{
    if info.parents.len() < 2 {
        return None;
    }
    let mut v = chars_of(info.parents[0].as_str());
    extend_str(&mut v, "..");
    extend_str(&mut v, info.parents[1].as_str());
    Some(string_of(v.as_slice()))
}

} // verus!
