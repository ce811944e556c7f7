//! Finding an earlier version of a change that carries no `Change-Id`.
//!
//! A change with a `Change-Id` says who it is in its own message, and an
//! amend keeps it. A change without one is a new commit every time: the
//! key follows the sha, and an amend leaves the round before it under a name
//! nothing claims. The reflog still points at that commit.
//!
//! What makes a commit of the reflog an earlier version:
//!
//! - the same subject, which is what survives an amend of the code;
//! - not reachable from the series head, so a commit of the history that
//!   happens to share a subject is left alone (the caller asks git);
//! - and the subject names exactly one change of the series, so an
//!   ambiguous one is left alone too.

use vstd::prelude::*;
use crate::model::{summaries_view, ChangeSummary, ChangeSummaryView};
use crate::text::{find_char, find_char_in, lines, lines_of, chars_of, same, same_str, slice, string_of};

verus! {

/// One line of `git log -g --format=%H%x00%s`: the hash, then the subject,
/// split at the first NUL. A line with none says nothing.
pub open spec fn entry_of(line: Seq<char>) -> Option<(Seq<char>, Seq<char>)> {
    match find_char(line, '\0') {
        Some(i) => Some((line.subrange(0, i), line.subrange(i + 1, line.len() as int))),
        None => None,
    }
}

/// Whether an entry names the hash.
pub open spec fn has_hash(es: Seq<(Seq<char>, Seq<char>)>, hash: Seq<char>) -> bool {
    exists|i: int| 0 <= i < es.len() && (#[trigger] es[i]).0 == hash
}

/// The commits of the reflog, each once, in the order the lines name them.
pub open spec fn spec_entries(ls: Seq<Seq<char>>) -> Seq<(Seq<char>, Seq<char>)>
    decreases ls.len(),
{
    if ls.len() == 0 {
        Seq::empty()
    } else {
        let r = spec_entries(ls.drop_last());
        match entry_of(ls.last()) {
            Some(e) => if has_hash(r, e.0) {
                r
            } else {
                r.push(e)
            },
            None => r,
        }
    }
}

/// The views of the entries read.
pub open spec fn pairs_view(v: Seq<(String, String)>) -> Seq<(Seq<char>, Seq<char>)> {
    v.map_values(|p: (String, String)| (p.0@, p.1@))
}

/// Every commit the reflog reaches, with the subject it carries, read from
/// what `git log -g --all --format=%H%x00%s` printed.
pub fn entries(text: &str) -> (out: Vec<(String, String)>)
    ensures
        pairs_view(out@) == spec_entries(lines(text@)),
{
    let ls = lines_of(chars_of(text).as_slice());
    let ghost lv = lines(text@);
    let mut out: Vec<(String, String)> = Vec::new();
    let mut i: usize = 0;
    while i < ls.len()
        invariant
            0 <= i <= ls@.len(),
            ls@.len() == lv.len(),
            forall|k: int| 0 <= k < ls@.len() ==> #[trigger] ls@[k]@ == lv[k],
            pairs_view(out@) == spec_entries(lv.take(i as int)),
        decreases ls@.len() - i,
    {
        let line = &ls[i];
        assert(lv.take(i as int + 1).drop_last() == lv.take(i as int));
        assert(lv.take(i as int + 1).last() == line@);
        let ghost have = pairs_view(out@);
        let ls_i = line.as_slice();
        if let Some(at) = find_char_in(ls_i, '\0') {
            let n = ls_i.len();
            assert(at < n);
            let hash = slice(ls_i, 0, at);
            let subject = slice(ls_i, at + 1, n);
            let mut seen = false;
            let mut j: usize = 0;
            while j < out.len()
                invariant
                    0 <= j <= out@.len(),
                    have == pairs_view(out@),
                    seen == exists|k: int| 0 <= k < j && (#[trigger] have[k]).0 == hash@,
                decreases out@.len() - j,
            {
                assert(have[j as int] == (out@[j as int].0@, out@[j as int].1@));
                if same_str(out[j].0.as_str(), string_of(hash.as_slice()).as_str()) {
                    seen = true;
                }
                j = j + 1;
            }
            if !seen {
                out.push((string_of(hash.as_slice()), string_of(subject.as_slice())));
                assert(pairs_view(out@) =~= have.push((hash@, subject@)));
            }
        }
        i = i + 1;
    }
    assert(lv.take(ls@.len() as int) == lv);
    out
}

/// How many changes carry the subject.
pub open spec fn count_subject(cs: Seq<ChangeSummaryView>, subject: Seq<char>) -> nat
    decreases cs.len(),
{
    if cs.len() == 0 {
        0
    } else {
        count_subject(cs.drop_last(), subject) + if cs.last().subject == subject { 1nat } else { 0nat }
    }
}

/// Whether a change of the series is the commit.
pub open spec fn in_series(cs: Seq<ChangeSummaryView>, hash: Seq<char>) -> bool {
    exists|i: int| 0 <= i < cs.len() && (#[trigger] cs[i]).commit == hash
}

/// The change a commit of the reflog may be an earlier version of: the one
/// change whose subject it carries, when that change has no `Change-Id` and
/// is a commit, and the commit is not one of the series.
pub open spec fn spec_owner(cs: Seq<ChangeSummaryView>, hash: Seq<char>, subject: Seq<char>) -> Option<int> {
    if in_series(cs, hash) || count_subject(cs, subject) != 1 {
        None
    } else {
        let i = choose|i: int| 0 <= i < cs.len() && cs[i].subject == subject;
        if cs[i].change_id is None && !cs[i].worktree {
            Some(i)
        } else {
            None
        }
    }
}

proof fn lemma_count_one(cs: Seq<ChangeSummaryView>, subject: Seq<char>, i: int)
    requires
        0 <= i < cs.len(),
        cs[i].subject == subject,
        count_subject(cs, subject) == 1,
    ensures
        forall|j: int| 0 <= j < cs.len() && j != i ==> (#[trigger] cs[j]).subject != subject,
    decreases cs.len(),
{
    let t = cs.drop_last();
    if i < cs.len() - 1 {
        assert(t[i] == cs[i]);
        lemma_count_positive(t, subject, i);
        assert(cs.last().subject != subject);
        lemma_count_one(t, subject, i);
        assert forall|j: int| 0 <= j < cs.len() && j != i implies (#[trigger] cs[j]).subject != subject by {
            if j < cs.len() - 1 {
                assert(t[j] == cs[j]);
            }
        }
    } else {
        assert(count_subject(t, subject) == 0);
        assert forall|j: int| 0 <= j < cs.len() && j != i implies (#[trigger] cs[j]).subject != subject by {
            assert(t[j] == cs[j]);
            lemma_count_positive(t, subject, j);
        }
    }
}

proof fn lemma_count_positive(cs: Seq<ChangeSummaryView>, subject: Seq<char>, i: int)
    requires
        0 <= i < cs.len(),
    ensures
        cs[i].subject == subject ==> count_subject(cs, subject) >= 1,
    decreases cs.len(),
{
    if i < cs.len() - 1 {
        assert(cs.drop_last()[i] == cs[i]);
        lemma_count_positive(cs.drop_last(), subject, i);
    }
}

/// The change a commit of the reflog may be an earlier version of, by its
/// place in the series. Whether the series head still reaches the commit
/// is for the caller to ask git; a commit it reaches is history.
pub fn owner_of(changes: &Vec<ChangeSummary>, hash: &str, subject: &str) -> (out: Option<usize>)
    ensures
        match out {
            Some(i) => spec_owner(summaries_view(changes@), hash@, subject@) == Some(i as int),
            None => spec_owner(summaries_view(changes@), hash@, subject@) is None,
        },
{
    let ghost v = summaries_view(changes@);
    let mut count: usize = 0;
    let mut found: usize = 0;
    let mut here = false;
    let mut i: usize = 0;
    while i < changes.len()
        invariant
            0 <= i <= changes@.len(),
            v == summaries_view(changes@),
            count as nat == count_subject(v.take(i as int), subject@),
            count <= i,
            count > 0 ==> found < i && v[found as int].subject == subject@,
            here == exists|k: int| 0 <= k < i && (#[trigger] v[k]).commit == hash@,
        decreases changes@.len() - i,
    {
        assert(v[i as int] == changes@[i as int]@);
        assert(v.take(i as int + 1).drop_last() == v.take(i as int));
        assert(v.take(i as int + 1).last() == v[i as int]);
        if same_str(changes[i].commit.as_str(), hash) {
            here = true;
        }
        if same_str(changes[i].subject.as_str(), subject) {
            if count == 0 {
                found = i;
            }
            count = count + 1;
        }
        i = i + 1;
    }
    assert(v.take(v.len() as int) == v);
    if here || count != 1 {
        return None;
    }
    proof {
        lemma_count_one(v, subject@, found as int);
        let c = choose|i: int| 0 <= i < v.len() && v[i].subject == subject@;
        assert(c == found);
    }
    if changes[found].change_id.is_none() && !changes[found].worktree {
        Some(found)
    } else {
        None
    }
}

} // verus!
