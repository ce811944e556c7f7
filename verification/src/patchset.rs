//! The versions of one change.
//!
//! A patch set is one version of a change. The local commit is always the
//! last one. A commit named with `--prev` joins the list when it carries the
//! same Change-Id, and Gerrit adds the ones already pushed.

use vstd::prelude::*;
use crate::gerrit::answer::PatchSet as Pushed;
use crate::git::commit::{
    commits_view, utc_or_empty, opt_str, utc_text, spec_change_id, CommitInfo, CommitView,
};
use crate::model::{opt_view, ChangeSummary};
use crate::text::{chars_of, copy_opt, copy_string, same_str};

verus! {

/// Where a version of a change comes from.
#[derive(Clone, Copy, Debug, PartialEq, Eq, Structural)]
pub enum Origin {
    /// The commit under review.
    Local,
    /// A commit named with `--prev`.
    Prev,
    /// A ref fetched from Gerrit.
    Gerrit,
}

/// One version of a change.
#[derive(Clone, Debug, PartialEq, Eq)]
pub struct PatchSet {
    /// 1 based. The local commit has the highest number.
    pub number: usize,
    pub commit: String,
    /// The first parent, which is what this version was written on.
    pub parent: Option<String>,
    pub origin: Origin,
    pub created_at: String,
    pub subject: String,
    pub gerrit_ref: Option<String>,
    /// False when the commit is not in this clone yet. Fetch it first.
    pub available: bool,
}

/// A patch set, with its text as characters.
pub struct PatchSetView {
    pub number: nat,
    pub commit: Seq<char>,
    pub parent: Option<Seq<char>>,
    pub origin: Origin,
    pub created_at: Seq<char>,
    pub subject: Seq<char>,
    pub gerrit_ref: Option<Seq<char>>,
    pub available: bool,
}

impl View for PatchSet {
    type V = PatchSetView;

    open spec fn view(&self) -> PatchSetView {
        PatchSetView {
            number: self.number as nat,
            commit: self.commit@,
            parent: opt_view(self.parent),
            origin: self.origin,
            created_at: self.created_at@,
            subject: self.subject@,
            gerrit_ref: opt_view(self.gerrit_ref),
            available: self.available,
        }
    }
}

/// The views of a sequence of patch sets.
pub open spec fn sets_view(v: Seq<PatchSet>) -> Seq<PatchSetView> {
    v.map_values(|s: PatchSet| s@)
}

/// The same version under another number.
pub open spec fn renumbered(s: PatchSetView, number: nat) -> PatchSetView {
    PatchSetView {
        number,
        commit: s.commit,
        parent: s.parent,
        origin: s.origin,
        created_at: s.created_at,
        subject: s.subject,
        gerrit_ref: s.gerrit_ref,
        available: s.available,
    }
}

/// `a` comes strictly before `b` in the order of their characters, which is
/// the order of their UTF-8 bytes, the order of `str`.
pub open spec fn text_lt(a: Seq<char>, b: Seq<char>) -> bool
    decreases a.len(),
{
    if a.len() == 0 {
        b.len() > 0
    } else if b.len() == 0 {
        false
    } else if a[0] != b[0] {
        (a[0] as u32) < (b[0] as u32)
    } else {
        text_lt(a.drop_first(), b.drop_first())
    }
}

/// The version is the commit under review.
pub open spec fn reviewing(reviewed: Option<Seq<char>>, s: PatchSetView) -> bool {
    reviewed == Some(s.commit)
}

/// `a` may stand before `b`: the commit under review goes last, then the
/// older date first, then the lower number.
pub open spec fn in_order(reviewed: Option<Seq<char>>, a: PatchSetView, b: PatchSetView) -> bool {
    let x = reviewing(reviewed, a);
    let y = reviewing(reviewed, b);
    ||| !x && y
    ||| x == y && (text_lt(a.created_at, b.created_at) || (a.created_at == b.created_at
        && a.number <= b.number))
}

/// `x` put into an ordered run, after every version that may stand before it.
pub open spec fn insert_in_order(
    s: Seq<PatchSetView>,
    x: PatchSetView,
    reviewed: Option<Seq<char>>,
) -> Seq<PatchSetView>
    decreases s.len(),
{
    if s.len() == 0 {
        seq![x]
    } else if in_order(reviewed, s.last(), x) {
        s.push(x)
    } else {
        insert_in_order(s.drop_last(), x, reviewed).push(s.last())
    }
}

/// The versions in order, a stable sort: versions that tie keep the order
/// they came in.
pub open spec fn sorted_versions(s: Seq<PatchSetView>, reviewed: Option<Seq<char>>) -> Seq<
    PatchSetView,
>
    decreases s.len(),
{
    if s.len() == 0 {
        s
    } else {
        insert_in_order(sorted_versions(s.drop_last(), reviewed), s.last(), reviewed)
    }
}

proof fn lemma_text_lt_from(a: Seq<char>, b: Seq<char>, i: int)
    requires
        0 <= i <= a.len(),
        i <= b.len(),
        a.subrange(0, i) == b.subrange(0, i),
    ensures
        text_lt(a, b) == text_lt(a.subrange(i, a.len() as int), b.subrange(i, b.len() as int)),
    decreases i,
{
    if i > 0 {
        assert(a[0] == a.subrange(0, i)[0]);
        assert(b[0] == b.subrange(0, i)[0]);
        assert(a.drop_first().subrange(0, i - 1) == a.subrange(0, i).drop_first());
        assert(b.drop_first().subrange(0, i - 1) == b.subrange(0, i).drop_first());
        lemma_text_lt_from(a.drop_first(), b.drop_first(), i - 1);
        assert(a.drop_first().subrange(i - 1, a.len() - 1) == a.subrange(i, a.len() as int));
        assert(b.drop_first().subrange(i - 1, b.len() - 1) == b.subrange(i, b.len() as int));
    } else {
        assert(a.subrange(0, a.len() as int) == a);
        assert(b.subrange(0, b.len() as int) == b);
    }
}

/// Whether `a` comes strictly before `b`, as `str` orders them.
pub fn text_before(a: &str, b: &str) -> (r: bool)
    ensures
        r == text_lt(a@, b@),
{
    let x = chars_of(a);
    let y = chars_of(b);
    let mut i: usize = 0;
    while i < x.len() && i < y.len() && x[i] == y[i]
        invariant
            i <= x@.len(),
            i <= y@.len(),
            x@ == a@,
            y@ == b@,
            x@.subrange(0, i as int) == y@.subrange(0, i as int),
        decreases x@.len() - i,
    {
        assert(x@.subrange(0, i + 1) == x@.subrange(0, i as int).push(x@[i as int]));
        assert(y@.subrange(0, i + 1) == y@.subrange(0, i as int).push(y@[i as int]));
        i = i + 1;
    }
    proof {
        lemma_text_lt_from(x@, y@, i as int);
    }
    let ghost rx = x@.subrange(i as int, x@.len() as int);
    let ghost ry = y@.subrange(i as int, y@.len() as int);
    if i == x.len() {
        assert(rx.len() == 0);
        i < y.len()
    } else if i == y.len() {
        assert(ry.len() == 0);
        false
    } else {
        assert(rx[0] == x@[i as int]);
        assert(ry[0] == y@[i as int]);
        (x[i] as u32) < (y[i] as u32)
    }
}

/// Whether `a` may stand before `b`.
fn in_order_of(reviewed: &Option<String>, a: &PatchSet, b: &PatchSet) -> (r: bool)
    ensures
        r == in_order(opt_view(*reviewed), a@, b@),
{
    let (x, y) = match reviewed {
        Some(c) => (same_str(c.as_str(), a.commit.as_str()), same_str(c.as_str(), b.commit.as_str())),
        None => (false, false),
    };
    if !x && y {
        return true;
    }
    if x != y {
        return false;
    }
    if text_before(a.created_at.as_str(), b.created_at.as_str()) {
        return true;
    }
    same_str(a.created_at.as_str(), b.created_at.as_str()) && a.number <= b.number
}

proof fn lemma_insert_at(
    s: Seq<PatchSetView>,
    x: PatchSetView,
    reviewed: Option<Seq<char>>,
    j: int,
)
    requires
        0 <= j <= s.len(),
        j > 0 ==> in_order(reviewed, s[j - 1], x),
        forall|k: int| j <= k < s.len() ==> !in_order(reviewed, #[trigger] s[k], x),
    ensures
        insert_in_order(s, x, reviewed) == s.subrange(0, j) + seq![x] + s.subrange(j, s.len() as int),
    decreases s.len(),
{
    if s.len() == 0 {
        assert(s.subrange(0, j) + seq![x] + s.subrange(j, s.len() as int) == seq![x]);
    } else if j == s.len() {
        assert(s.subrange(0, j) == s);
        assert(s.subrange(0, j) + seq![x] + s.subrange(j, s.len() as int) == s.push(x));
    } else {
        let t = s.drop_last();
        assert(!in_order(reviewed, s[s.len() - 1], x));
        assert forall|k: int| j <= k < t.len() implies !in_order(reviewed, #[trigger] t[k], x) by {
            assert(t[k] == s[k]);
        }
        if j > 0 {
            assert(t[j - 1] == s[j - 1]);
        }
        lemma_insert_at(t, x, reviewed, j);
        assert(t.subrange(0, j) == s.subrange(0, j));
        assert(t.subrange(j, t.len() as int).push(s.last()) == s.subrange(j, s.len() as int));
        assert((t.subrange(0, j) + seq![x] + t.subrange(j, t.len() as int)).push(s.last())
            == s.subrange(0, j) + seq![x] + s.subrange(j, s.len() as int));
    }
}

/// Put `x` into an ordered run.
fn insert_sorted(v: &mut Vec<PatchSet>, x: PatchSet, reviewed: &Option<String>)
    ensures
        sets_view(final(v)@) == insert_in_order(sets_view(old(v)@), x@, opt_view(*reviewed)),
{
    let ghost s = sets_view(v@);
    let ghost r = opt_view(*reviewed);
    let mut j: usize = v.len();
    let mut found = false;
    while !found && j > 0
        invariant
            j <= v@.len(),
            s == sets_view(v@),
            r == opt_view(*reviewed),
            found ==> j > 0 && in_order(r, s[j - 1], x@),
            forall|k: int| j <= k < s.len() ==> !in_order(r, #[trigger] s[k], x@),
        decreases 2 * j + (if found { 0int } else { 1int }),
    {
        if in_order_of(reviewed, &v[j - 1], &x) {
            found = true;
        } else {
            j = j - 1;
        }
    }
    proof {
        lemma_insert_at(s, x@, r, j as int);
    }
    v.insert(j, x);
    assert(sets_view(v@) =~= s.subrange(0, j as int) + seq![x@] + s.subrange(j as int, s.len() as int));
}

/// The versions in order: the commit under review last, then by date, then
/// by number. Versions that tie keep the order they came in.
fn sort_versions(v: Vec<PatchSet>, reviewed: &Option<String>) -> (out: Vec<PatchSet>)
    ensures
        sets_view(out@) == sorted_versions(sets_view(v@), opt_view(*reviewed)),
{
    let ghost s = sets_view(v@);
    let ghost r = opt_view(*reviewed);
    let n = v.len();
    let mut rest = v;
    let mut out: Vec<PatchSet> = Vec::new();
    let mut i: usize = 0;
    while i < n
        invariant
            i <= n,
            n == s.len(),
            r == opt_view(*reviewed),
            sets_view(rest@) == s.subrange(i as int, n as int),
            sets_view(out@) == sorted_versions(s.subrange(0, i as int), r),
        decreases n - i,
    {
        assert(sets_view(rest@).len() == rest@.len());
        assert(sets_view(rest@)[0] == rest@[0]@);
        assert(s.subrange(i as int, n as int)[0] == s[i as int]);
        let ghost before = rest@;
        let x = rest.remove(0);
        assert(x@ == s[i as int]);
        assert forall|k: int| 0 <= k < rest@.len() implies #[trigger] rest@[k]@ == s[i + 1 + k] by {
            assert(rest@[k] == before[k + 1]);
            assert(sets_view(before)[k + 1] == before[k + 1]@);
        }
        assert(sets_view(rest@) =~= s.subrange(i + 1, n as int));
        insert_sorted(&mut out, x, reviewed);
        assert(s.subrange(0, i + 1).drop_last() == s.subrange(0, i as int));
        i = i + 1;
    }
    assert(s.subrange(0, n as int) == s);
    out
}

/// A version as the server knows it: its number, its commit, the ref to
/// fetch it by and the moment it was pushed. It is not in this clone yet.
pub open spec fn pushed_view(p: Pushed) -> PatchSetView {
    PatchSetView {
        number: p.number as nat,
        commit: p.revision@,
        parent: None,
        origin: Origin::Gerrit,
        created_at: utc_text(p.created_on),
        subject: Seq::empty(),
        gerrit_ref: Some(p.git_ref@),
        available: false,
    }
}

/// The versions the server knows, in its order.
pub open spec fn pushed_views(r: Seq<Pushed>) -> Seq<PatchSetView> {
    r.map_values(|p: Pushed| pushed_view(p))
}

/// The highest number the server gave, or 0.
pub open spec fn highest(r: Seq<Pushed>) -> nat
    decreases r.len(),
{
    if r.len() == 0 {
        0
    } else if r.last().number as nat > highest(r.drop_last()) {
        r.last().number as nat
    } else {
        highest(r.drop_last())
    }
}

/// The first place in the list that holds the commit.
pub open spec fn first_with(s: Seq<PatchSetView>, commit: Seq<char>) -> Option<int>
    decreases s.len(),
{
    if s.len() == 0 {
        None
    } else {
        match first_with(s.drop_last(), commit) {
            Some(k) => Some(k),
            None => if s.last().commit == commit {
                Some(s.len() - 1)
            } else {
                None
            },
        }
    }
}

/// A local version that the server knows too: the local one, under the
/// number and the ref the server gave.
pub open spec fn known_as(set: PatchSetView, known: PatchSetView) -> PatchSetView {
    PatchSetView {
        number: known.number,
        commit: set.commit,
        parent: set.parent,
        origin: set.origin,
        created_at: set.created_at,
        subject: set.subject,
        gerrit_ref: known.gerrit_ref,
        available: set.available,
    }
}

/// One local version taken into the list, with the last number given so far.
pub open spec fn take_in(out: Seq<PatchSetView>, next: nat, set: PatchSetView) -> (
    Seq<PatchSetView>,
    nat,
) {
    match first_with(out, set.commit) {
        Some(k) => (out.update(k, known_as(set, out[k])), next),
        None => (out.push(renumbered(set, next + 1)), next + 1),
    }
}

/// The local versions taken into the list one after the other.
pub open spec fn take_all(out: Seq<PatchSetView>, next: nat, locals: Seq<PatchSetView>) -> (
    Seq<PatchSetView>,
    nat,
)
    decreases locals.len(),
{
    if locals.len() == 0 {
        (out, next)
    } else {
        let (o, n) = take_all(out, next, locals.drop_last());
        take_in(o, n, locals.last())
    }
}

/// The commit under review: the last local version.
pub open spec fn last_commit(local: Seq<PatchSetView>) -> Option<Seq<char>> {
    if local.len() > 0 {
        Some(local.last().commit)
    } else {
        None
    }
}

/// What the local list becomes once the server has answered.
pub open spec fn spec_merge(local: Seq<PatchSetView>, remote: Seq<Pushed>) -> Seq<PatchSetView> {
    if remote.len() == 0 {
        local
    } else {
        sorted_versions(take_all(pushed_views(remote), highest(remote), local).0, last_commit(local))
    }
}

/// A version the server knows, as the list holds it.
///
/// The date is the moment of the push, written by the `time` crate.
fn from_server(p: &Pushed) -> (out: PatchSet)
    ensures
        out@ == pushed_view(*p),
{
    PatchSet {
        number: p.number,
        commit: copy_string(&p.revision),
        parent: None,
        origin: Origin::Gerrit,
        created_at: utc_or_empty(p.created_on),
        subject: String::new(),
        gerrit_ref: Some(copy_string(&p.git_ref)),
        available: false,
    }
}

proof fn lemma_first_with(s: Seq<PatchSetView>, commit: Seq<char>, k: int)
    requires
        0 <= k <= s.len(),
        forall|j: int| 0 <= j < k ==> #[trigger] s[j].commit != commit,
        k < s.len() ==> s[k].commit == commit,
    ensures
        first_with(s, commit) == (if k < s.len() {
            Some(k)
        } else {
            None::<int>
        }),
    decreases s.len(),
{
    if s.len() > 0 {
        let t = s.drop_last();
        if k < s.len() - 1 {
            assert(t[k] == s[k]);
            assert forall|j: int| 0 <= j < k implies #[trigger] t[j].commit != commit by {
                assert(t[j] == s[j]);
            }
            lemma_first_with(t, commit, k);
        } else {
            assert forall|j: int| 0 <= j < t.len() implies #[trigger] t[j].commit != commit by {
                assert(t[j] == s[j]);
            }
            lemma_first_with(t, commit, t.len() as int);
        }
    }
}

proof fn lemma_first_with_found(s: Seq<PatchSetView>, commit: Seq<char>)
    ensures
        first_with(s, commit) matches Some(k) ==> 0 <= k < s.len() && s[k].commit == commit,
    decreases s.len(),
{
    if s.len() > 0 {
        lemma_first_with_found(s.drop_last(), commit);
    }
}

/// The first place in the list that holds the commit.
fn find_commit(out: &Vec<PatchSet>, commit: &String) -> (k: Option<usize>)
    ensures
        match k {
            Some(k) => first_with(sets_view(out@), commit@) == Some(k as int),
            None => first_with(sets_view(out@), commit@) is None,
        },
{
    let ghost s = sets_view(out@);
    let mut i: usize = 0;
    while i < out.len()
        invariant
            i <= out@.len(),
            s == sets_view(out@),
            forall|j: int| 0 <= j < i ==> #[trigger] s[j].commit != commit@,
        decreases out@.len() - i,
    {
        if same_str(out[i].commit.as_str(), commit.as_str()) {
            proof {
                lemma_first_with(s, commit@, i as int);
            }
            return Some(i);
        }
        i = i + 1;
    }
    proof {
        lemma_first_with(s, commit@, s.len() as int);
    }
    None
}

/// Merge what Gerrit knows into the local list.
///
/// Gerrit owns the numbering: those numbers are what a person on the server
/// sees, and two people must mean the same thing by "patch set 2". A local
/// commit that Gerrit already has keeps its number and is marked local.
///
/// A version Gerrit never saw is not a patch set of it and takes no number of
/// its own. It gets one past the highest, as a handle to open it by.
///
/// The list is ordered the way the versions were written, and the commit
/// under review is last whatever the dates say.
pub fn merge_gerrit(local: Vec<PatchSet>, remote: &[Pushed]) -> (out: Vec<PatchSet>)
    requires
        highest(remote@) + local@.len() <= usize::MAX,
    ensures
        sets_view(out@) == spec_merge(sets_view(local@), remote@),
{
    if remote.len() == 0 {
        return local;
    }
    let ghost lv = sets_view(local@);
    let reviewed: Option<String> = if local.len() > 0 {
        Some(copy_string(&local[local.len() - 1].commit))
    } else {
        None
    };
    assert(opt_view(reviewed) == last_commit(lv));

    let mut out: Vec<PatchSet> = Vec::new();
    let mut next: usize = 0;
    let mut i: usize = 0;
    while i < remote.len()
        invariant
            i <= remote@.len(),
            sets_view(out@) == pushed_views(remote@.subrange(0, i as int)),
            next as nat == highest(remote@.subrange(0, i as int)),
        decreases remote@.len() - i,
    {
        let set = from_server(&remote[i]);
        let ghost before = out@;
        assert(sets_view(before).len() == before.len());
        assert(pushed_views(remote@.subrange(0, i as int)).len() == i);
        out.push(set);
        let ghost r = remote@.subrange(0, i + 1);
        assert(r.drop_last() == remote@.subrange(0, i as int));
        assert forall|k: int| 0 <= k < out@.len() implies #[trigger] out@[k]@ == pushed_view(r[k]) by {
            if k < i {
                assert(out@[k] == before[k]);
                assert(sets_view(before)[k] == before[k]@);
                assert(pushed_views(remote@.subrange(0, i as int))[k] == pushed_view(r[k]));
            }
        }
        assert(sets_view(out@) =~= pushed_views(r));
        if remote[i].number > next {
            next = remote[i].number;
        }
        i = i + 1;
    }
    assert(remote@.subrange(0, remote@.len() as int) == remote@);
    let ghost start = sets_view(out@);
    let ghost high = highest(remote@);

    let n = local.len();
    let mut rest = local;
    let mut i: usize = 0;
    while i < n
        invariant
            i <= n,
            n == lv.len(),
            high + n <= usize::MAX,
            next as nat <= high + i,
            sets_view(rest@) == lv.subrange(i as int, n as int),
            (sets_view(out@), next as nat) == take_all(start, high, lv.subrange(0, i as int)),
        decreases n - i,
    {
        assert(sets_view(rest@).len() == rest@.len());
        assert(sets_view(rest@)[0] == rest@[0]@);
        assert(lv.subrange(i as int, n as int)[0] == lv[i as int]);
        let ghost before = rest@;
        let mut set = rest.remove(0);
        assert forall|k: int| 0 <= k < rest@.len() implies #[trigger] rest@[k]@ == lv[i + 1 + k] by {
            assert(rest@[k] == before[k + 1]);
            assert(sets_view(before)[k + 1] == before[k + 1]@);
        }
        assert(sets_view(rest@) =~= lv.subrange(i + 1, n as int));
        assert(lv.subrange(0, i + 1).drop_last() == lv.subrange(0, i as int));
        assert(lv.subrange(0, i + 1).last() == lv[i as int]);
        let ghost s = sets_view(out@);
        match find_commit(&out, &set.commit) {
            Some(k) => {
                proof {
                    lemma_first_with_found(s, set.commit@);
                }
                set.number = out[k].number;
                set.gerrit_ref = copy_opt(&out[k].gerrit_ref);
                let ghost x = set@;
                out.set(k, set);
                assert(sets_view(out@) =~= s.update(k as int, x));
            },
            None => {
                next = next + 1;
                set.number = next;
                let ghost x = set@;
                out.push(set);
                assert(sets_view(out@) =~= s.push(x));
            },
        }
        i = i + 1;
    }
    assert(lv.subrange(0, n as int) == lv);
    sort_versions(out, &reviewed)
}

proof fn lemma_insert_members(s: Seq<PatchSetView>, x: PatchSetView, reviewed: Option<Seq<char>>)
    ensures
        insert_in_order(s, x, reviewed).len() == s.len() + 1,
        forall|y: PatchSetView|
            #[trigger] insert_in_order(s, x, reviewed).contains(y) <==> (s.contains(y) || y == x),
    decreases s.len(),
{
    let out = insert_in_order(s, x, reviewed);
    if s.len() == 0 {
        assert forall|y: PatchSetView| out.contains(y) <==> (s.contains(y) || y == x) by {
            if out.contains(y) {
                let k = choose|k: int| 0 <= k < out.len() && out[k] == y;
                assert(k == 0);
            }
            if y == x {
                assert(out[0] == y);
            }
        }
    } else if in_order(reviewed, s.last(), x) {
        assert forall|y: PatchSetView| out.contains(y) <==> (s.contains(y) || y == x) by {
            if out.contains(y) {
                let k = choose|k: int| 0 <= k < out.len() && out[k] == y;
                if k < s.len() {
                    assert(s[k] == y);
                }
            }
            if s.contains(y) {
                let k = choose|k: int| 0 <= k < s.len() && s[k] == y;
                assert(out[k] == y);
            }
            if y == x {
                assert(out[s.len() as int] == y);
            }
        }
    } else {
        let t = s.drop_last();
        let inner = insert_in_order(t, x, reviewed);
        lemma_insert_members(t, x, reviewed);
        assert forall|y: PatchSetView| out.contains(y) <==> (s.contains(y) || y == x) by {
            if out.contains(y) {
                let k = choose|k: int| 0 <= k < out.len() && out[k] == y;
                if k < inner.len() {
                    assert(inner[k] == y);
                    assert(inner.contains(y));
                    if t.contains(y) {
                        let j = choose|j: int| 0 <= j < t.len() && t[j] == y;
                        assert(s[j] == y);
                    }
                } else {
                    assert(y == s.last());
                    assert(s[s.len() - 1] == y);
                }
            }
            if s.contains(y) {
                let k = choose|k: int| 0 <= k < s.len() && s[k] == y;
                if k < s.len() - 1 {
                    assert(t[k] == y);
                    assert(t.contains(y));
                    assert(inner.contains(y));
                    let j = choose|j: int| 0 <= j < inner.len() && inner[j] == y;
                    assert(out[j] == y);
                } else {
                    assert(out[out.len() - 1] == y);
                }
            }
            if y == x {
                assert(inner.contains(y));
                let j = choose|j: int| 0 <= j < inner.len() && inner[j] == y;
                assert(out[j] == y);
            }
        }
    }
}

/// Sorting keeps every version and adds none.
pub proof fn lemma_sorted_members(s: Seq<PatchSetView>, reviewed: Option<Seq<char>>)
    ensures
        sorted_versions(s, reviewed).len() == s.len(),
        forall|y: PatchSetView| #[trigger] sorted_versions(s, reviewed).contains(y) <==> s.contains(y),
    decreases s.len(),
{
    if s.len() > 0 {
        let t = s.drop_last();
        lemma_sorted_members(t, reviewed);
        lemma_insert_members(sorted_versions(t, reviewed), s.last(), reviewed);
        assert forall|y: PatchSetView| #[trigger] sorted_versions(s, reviewed).contains(y) <==> s.contains(y) by {
            if t.contains(y) {
                let k = choose|k: int| 0 <= k < t.len() && t[k] == y;
                assert(s[k] == y);
            }
            if s.contains(y) {
                let k = choose|k: int| 0 <= k < s.len() && s[k] == y;
                if k < s.len() - 1 {
                    assert(t[k] == y);
                }
            }
        }
    }
}

proof fn lemma_insert_last_reviewed(
    s: Seq<PatchSetView>,
    x: PatchSetView,
    reviewed: Option<Seq<char>>,
)
    requires
        reviewing(reviewed, x) || (s.len() > 0 && reviewing(reviewed, s.last())),
    ensures
        reviewing(reviewed, insert_in_order(s, x, reviewed).last()),
    decreases s.len(),
{
    lemma_insert_members(s, x, reviewed);
    if s.len() > 0 && !in_order(reviewed, s.last(), x) {
        lemma_insert_members(s.drop_last(), x, reviewed);
    }
}

proof fn lemma_sorted_last_reviewed(s: Seq<PatchSetView>, reviewed: Option<Seq<char>>, k: int)
    requires
        0 <= k < s.len(),
        reviewing(reviewed, s[k]),
    ensures
        sorted_versions(s, reviewed).len() == s.len(),
        reviewing(reviewed, sorted_versions(s, reviewed).last()),
    decreases s.len(),
{
    lemma_sorted_members(s, reviewed);
    let t = s.drop_last();
    if k < s.len() - 1 {
        assert(t[k] == s[k]);
        lemma_sorted_last_reviewed(t, reviewed, k);
        lemma_sorted_members(t, reviewed);
    }
    lemma_insert_last_reviewed(sorted_versions(t, reviewed), s.last(), reviewed);
}

/// What the list holds once the local versions are in: the server's
/// versions first, each under its number and commit, then the versions it
/// never saw, each numbered past the highest.
pub open spec fn holds_server(out: Seq<PatchSetView>, next: nat, remote: Seq<Pushed>) -> bool {
    &&& out.len() >= remote.len()
    &&& next >= highest(remote)
    &&& forall|i: int|
        0 <= i < remote.len() ==> (#[trigger] out[i]).number == remote[i].number
            && out[i].commit == remote[i].revision@
    &&& forall|k: int| remote.len() <= k < out.len() ==> (#[trigger] out[k]).number > highest(remote)
}

proof fn lemma_take_all_holds_server(remote: Seq<Pushed>, locals: Seq<PatchSetView>)
    ensures
        holds_server(
            take_all(pushed_views(remote), highest(remote), locals).0,
            take_all(pushed_views(remote), highest(remote), locals).1,
            remote,
        ),
    decreases locals.len(),
{
    if locals.len() > 0 {
        lemma_take_all_holds_server(remote, locals.drop_last());
        let (o, n) = take_all(pushed_views(remote), highest(remote), locals.drop_last());
        lemma_first_with_found(o, locals.last().commit);
    }
}

proof fn lemma_take_all_holds_last(out: Seq<PatchSetView>, next: nat, locals: Seq<PatchSetView>)
    requires
        locals.len() > 0,
    ensures
        exists|k: int|
            0 <= k < take_all(out, next, locals).0.len() && (#[trigger] take_all(
                out,
                next,
                locals,
            ).0[k]).commit == locals.last().commit,
{
    let (o, n) = take_all(out, next, locals.drop_last());
    lemma_first_with_found(o, locals.last().commit);
    let m = take_all(out, next, locals).0;
    match first_with(o, locals.last().commit) {
        Some(k) => {
            assert(m[k].commit == locals.last().commit);
        },
        None => {
            assert(m[o.len() as int].commit == locals.last().commit);
        },
    }
}

/// An empty answer from the server leaves the local list as it was.
pub proof fn law_no_answer_keeps_local(local: Seq<PatchSetView>)
    ensures
        spec_merge(local, Seq::empty()) == local,
{
}

/// The commit under review is the last version of the merged list, whatever
/// the dates say.
pub proof fn law_reviewed_is_last(local: Seq<PatchSetView>, remote: Seq<Pushed>)
    requires
        local.len() > 0,
    ensures
        spec_merge(local, remote).len() > 0,
        spec_merge(local, remote).last().commit == local.last().commit,
{
    if remote.len() > 0 {
        let start = pushed_views(remote);
        lemma_take_all_holds_last(start, highest(remote), local);
        let o = take_all(start, highest(remote), local).0;
        let k = choose|k: int| 0 <= k < o.len() && (#[trigger] o[k]).commit == local.last().commit;
        lemma_sorted_last_reviewed(o, last_commit(local), k);
    }
}

/// Gerrit owns the numbering: every version the server answered with is in
/// the merged list under the number and the commit the server gave it.
pub proof fn law_server_numbers_kept(local: Seq<PatchSetView>, remote: Seq<Pushed>, i: int)
    requires
        0 <= i < remote.len(),
    ensures
        exists|k: int|
            0 <= k < spec_merge(local, remote).len() && (#[trigger] spec_merge(local, remote)[k]).number
                == remote[i].number && spec_merge(local, remote)[k].commit == remote[i].revision@,
{
    let start = pushed_views(remote);
    lemma_take_all_holds_server(remote, local);
    let o = take_all(start, highest(remote), local).0;
    let m = spec_merge(local, remote);
    lemma_sorted_members(o, last_commit(local));
    assert(o.contains(o[i]));
    assert(m.contains(o[i]));
    let k = choose|k: int| 0 <= k < m.len() && m[k] == o[i];
    assert(m[k].number == remote[i].number);
}

/// A version the server never saw takes a number past the highest it gave.
pub proof fn law_unseen_past_highest(local: Seq<PatchSetView>, remote: Seq<Pushed>, k: int)
    requires
        remote.len() > 0,
        0 <= k < spec_merge(local, remote).len(),
        forall|i: int| 0 <= i < remote.len() ==> spec_merge(local, remote)[k].commit != (
        #[trigger] remote[i]).revision@,
    ensures
        spec_merge(local, remote)[k].number > highest(remote),
{
    let start = pushed_views(remote);
    lemma_take_all_holds_server(remote, local);
    let o = take_all(start, highest(remote), local).0;
    let m = spec_merge(local, remote);
    lemma_sorted_members(o, last_commit(local));
    assert(m.contains(m[k]));
    let j = choose|j: int| 0 <= j < o.len() && o[j] == m[k];
    if j < remote.len() {
        assert(o[j].commit == remote[j].revision@);
    }
}

/// A commit as a version of the change, before it is numbered.
pub open spec fn entry_view(c: CommitView, origin: Origin) -> PatchSetView {
    PatchSetView {
        number: 0,
        commit: c.hash,
        parent: if c.parents.len() > 0 {
            Some(c.parents[0])
        } else {
            None
        },
        origin,
        created_at: c.date,
        subject: c.subject,
        gerrit_ref: None,
        available: true,
    }
}

/// A commit is an older version of the local one: another commit that
/// carries the same `Change-Id`, or carries none as the local one does not.
pub open spec fn older_version(local: CommitView, c: CommitView) -> bool {
    c.hash != local.hash && spec_change_id(c.message) == spec_change_id(local.message)
}

/// The older versions among the commits named, in the order named.
pub open spec fn older_entries(local: CommitView, prevs: Seq<CommitView>) -> Seq<PatchSetView>
    decreases prevs.len(),
{
    if prevs.len() == 0 {
        Seq::empty()
    } else {
        let e = older_entries(local, prevs.drop_last());
        if older_version(local, prevs.last()) {
            e.push(entry_view(prevs.last(), Origin::Prev))
        } else {
            e
        }
    }
}

/// A run of versions with the repeats of a commit next to each other left
/// out, the first of each kept.
pub open spec fn dedup_commits(s: Seq<PatchSetView>) -> Seq<PatchSetView>
    decreases s.len(),
{
    if s.len() == 0 {
        s
    } else {
        let d = dedup_commits(s.drop_last());
        if d.len() > 0 && d.last().commit == s.last().commit {
            d
        } else {
            d.push(s.last())
        }
    }
}

/// The versions numbered from 1 in the order they stand.
pub open spec fn numbered(s: Seq<PatchSetView>) -> Seq<PatchSetView> {
    Seq::new(s.len(), |i: int| renumbered(s[i], (i + 1) as nat))
}

/// The patch sets of a change: the older versions oldest first, then the
/// local commit, numbered from 1.
pub open spec fn spec_of_change(local: CommitView, prevs: Seq<CommitView>) -> Seq<PatchSetView> {
    numbered(
        dedup_commits(sorted_versions(older_entries(local, prevs), None)).push(
            entry_view(local, Origin::Local),
        ),
    )
}

/// A commit as a version of the change, before it is numbered.
fn entry(info: &CommitInfo, origin: Origin, gerrit_ref: Option<String>) -> (out: PatchSet)
    ensures
        out@.number == 0,
        out@.commit == info@.hash,
        out@.parent == entry_view(info@, origin).parent,
        out@.origin == origin,
        out@.created_at == info@.date,
        out@.subject == info@.subject,
        out@.gerrit_ref == opt_view(gerrit_ref),
        out@.available,
{
    let parent = if info.parents.len() > 0 {
        Some(copy_string(&info.parents[0]))
    } else {
        None
    };
    PatchSet {
        number: 0,
        commit: copy_string(&info.hash),
        parent,
        origin,
        created_at: copy_string(&info.date),
        subject: copy_string(&info.subject),
        gerrit_ref,
        available: true,
    }
}

/// Two optional strings hold the same text, or are both absent.
fn same_opt(a: &Option<String>, b: &Option<String>) -> (r: bool)
    ensures
        r == (opt_view(*a) == opt_view(*b)),
{
    match (a, b) {
        (Some(x), Some(y)) => same_str(x.as_str(), y.as_str()),
        (None, None) => true,
        _ => false,
    }
}

/// The repeats of a commit next to each other left out.
fn dedup_by_commit(v: Vec<PatchSet>) -> (out: Vec<PatchSet>)
    ensures
        sets_view(out@) == dedup_commits(sets_view(v@)),
{
    let ghost s = sets_view(v@);
    let n = v.len();
    let mut rest = v;
    let mut out: Vec<PatchSet> = Vec::new();
    let mut i: usize = 0;
    while i < n
        invariant
            i <= n,
            n == s.len(),
            sets_view(rest@) == s.subrange(i as int, n as int),
            sets_view(out@) == dedup_commits(s.subrange(0, i as int)),
        decreases n - i,
    {
        assert(sets_view(rest@).len() == rest@.len());
        assert(sets_view(rest@)[0] == rest@[0]@);
        assert(s.subrange(i as int, n as int)[0] == s[i as int]);
        let ghost before = rest@;
        let x = rest.remove(0);
        assert forall|k: int| 0 <= k < rest@.len() implies #[trigger] rest@[k]@ == s[i + 1 + k] by {
            assert(rest@[k] == before[k + 1]);
            assert(sets_view(before)[k + 1] == before[k + 1]@);
        }
        assert(sets_view(rest@) =~= s.subrange(i + 1, n as int));
        assert(s.subrange(0, i + 1).drop_last() == s.subrange(0, i as int));
        let ghost d = sets_view(out@);
        assert(d.len() == out@.len());
        let repeat = out.len() > 0 && same_str(out[out.len() - 1].commit.as_str(), x.commit.as_str());
        if repeat {
            assert(d.last() == out@[out@.len() - 1]@);
        } else {
            if out.len() > 0 {
                assert(d.last() == out@[out@.len() - 1]@);
            }
            let ghost xv = x@;
            out.push(x);
            assert(sets_view(out@) =~= d.push(xv));
        }
        i = i + 1;
    }
    assert(s.subrange(0, n as int) == s);
    out
}

/// The patch sets of a change: the older versions, then the local commit.
///
/// `prevs` are the commits the reader named with `--prev`, as read from the
/// repository; a name that named no commit is not among them. One that
/// carries another Change-Id belongs to another change, and one that is the
/// local commit itself is not an older version of it. The older versions
/// come oldest first, so the numbers grow the way Gerrit numbers them.
pub fn of_change(local: &CommitInfo, prevs: Vec<CommitInfo>) -> (sets: Vec<PatchSet>)
    ensures
        sets_view(sets@) == spec_of_change(local@, commits_view(prevs@)),
{
    let ghost pv = commits_view(prevs@);
    let local_id = local.change_id();
    let mut older: Vec<PatchSet> = Vec::new();
    let mut i: usize = 0;
    while i < prevs.len()
        invariant
            i <= prevs@.len(),
            pv == commits_view(prevs@),
            opt_view(local_id) == spec_change_id(local@.message),
            sets_view(older@) == older_entries(local@, pv.subrange(0, i as int)),
        decreases prevs@.len() - i,
    {
        let info = &prevs[i];
        let ghost sub = pv.subrange(0, i + 1);
        assert(sub.drop_last() == pv.subrange(0, i as int));
        assert(sub.last() == info@);
        let ghost before = sets_view(older@);
        if !same_str(info.hash.as_str(), local.hash.as_str()) {
            let id = info.change_id();
            if same_opt(&id, &local_id) {
                let e = entry(info, Origin::Prev, None);
                older.push(e);
                assert(sets_view(older@) =~= before.push(entry_view(info@, Origin::Prev)));
            }
        }
        i = i + 1;
    }
    assert(pv.subrange(0, pv.len() as int) == pv);
    let none: Option<String> = None;
    let sorted = sort_versions(older, &none);
    let mut kept = dedup_by_commit(sorted);
    let ghost d = sets_view(kept@);
    let last = entry(local, Origin::Local, None);
    kept.push(last);
    let ghost whole = d.push(entry_view(local@, Origin::Local));
    assert(sets_view(kept@) =~= whole);
    let n = kept.len();
    let mut rest = kept;
    let mut sets: Vec<PatchSet> = Vec::new();
    let mut j: usize = 0;
    while j < n
        invariant
            j <= n,
            n == whole.len(),
            sets_view(rest@) == whole.subrange(j as int, n as int),
            sets_view(sets@) == numbered(whole.subrange(0, j as int)),
        decreases n - j,
    {
        assert(sets_view(rest@).len() == rest@.len());
        assert(sets_view(rest@)[0] == rest@[0]@);
        assert(whole.subrange(j as int, n as int)[0] == whole[j as int]);
        let ghost before = rest@;
        let mut x = rest.remove(0);
        assert forall|k: int| 0 <= k < rest@.len() implies #[trigger] rest@[k]@ == whole[j + 1 + k] by {
            assert(rest@[k] == before[k + 1]);
            assert(sets_view(before)[k + 1] == before[k + 1]@);
        }
        assert(sets_view(rest@) =~= whole.subrange(j + 1, n as int));
        x.number = j + 1;
        let ghost done = sets_view(sets@);
        assert(x@ == renumbered(whole[j as int], (j + 1) as nat));
        let ghost xv = x@;
        sets.push(x);
        assert(sets_view(sets@) =~= done.push(xv));
        assert(numbered(whole.subrange(0, j + 1)) =~= done.push(xv));
        j = j + 1;
    }
    assert(whole.subrange(0, n as int) == whole);
    sets
}

/// `a` comes no later than `b`.
pub open spec fn date_le(a: Seq<char>, b: Seq<char>) -> bool {
    text_lt(a, b) || a == b
}

/// Every version stands no later than the ones after it.
pub open spec fn oldest_first(s: Seq<PatchSetView>) -> bool {
    forall|i: int, j: int|
        #![trigger s[i], s[j]]
        0 <= i < j < s.len() ==> date_le(s[i].created_at, s[j].created_at)
}

proof fn lemma_text_lt_trans(a: Seq<char>, b: Seq<char>, c: Seq<char>)
    requires
        text_lt(a, b),
        text_lt(b, c),
    ensures
        text_lt(a, c),
    decreases a.len(),
{
    if a.len() > 0 && b.len() > 0 && c.len() > 0 && a[0] == b[0] && b[0] == c[0] {
        lemma_text_lt_trans(a.drop_first(), b.drop_first(), c.drop_first());
    }
}

proof fn lemma_text_lt_irreflexive(a: Seq<char>)
    ensures
        !text_lt(a, a),
    decreases a.len(),
{
    if a.len() > 0 {
        lemma_text_lt_irreflexive(a.drop_first());
    }
}

proof fn lemma_text_lt_total(a: Seq<char>, b: Seq<char>)
    ensures
        a == b || text_lt(a, b) || text_lt(b, a),
    decreases a.len(),
{
    if a.len() == 0 && b.len() == 0 {
        assert(a =~= b);
    } else if a.len() > 0 && b.len() > 0 && a[0] == b[0] {
        lemma_text_lt_total(a.drop_first(), b.drop_first());
        if a.drop_first() == b.drop_first() {
            assert(a.drop_first().len() == b.drop_first().len());
            assert(a.len() == b.len());
            assert forall|i: int| 0 <= i < a.len() implies a[i] == b[i] by {
                if i > 0 {
                    assert(a[i] == a.drop_first()[i - 1]);
                    assert(b[i] == b.drop_first()[i - 1]);
                }
            }
            assert(a =~= b);
        }
    } else if a.len() > 0 && b.len() > 0 {
        vstd::utf8::char_u32_cast(a[0], a[0] as u32);
        vstd::utf8::char_u32_cast(b[0], b[0] as u32);
        assert((a[0] as u32) != (b[0] as u32));
    }
}

proof fn lemma_date_le_trans(a: Seq<char>, b: Seq<char>, c: Seq<char>)
    requires
        date_le(a, b),
        date_le(b, c),
    ensures
        date_le(a, c),
{
    if text_lt(a, b) && text_lt(b, c) {
        lemma_text_lt_trans(a, b, c);
    }
}

proof fn lemma_insert_oldest_first(s: Seq<PatchSetView>, x: PatchSetView)
    requires
        oldest_first(s),
    ensures
        oldest_first(insert_in_order(s, x, None)),
    decreases s.len(),
{
    let out = insert_in_order(s, x, None);
    if s.len() == 0 {
    } else if in_order(None, s.last(), x) {
        assert forall|i: int, j: int| 0 <= i < j < out.len() implies date_le(
            #[trigger] out[i].created_at,
            #[trigger] out[j].created_at,
        ) by {
            if j == s.len() {
                assert(out[j] == x);
                assert(date_le(s.last().created_at, x.created_at));
                if i < s.len() - 1 {
                    assert(date_le(s[i].created_at, s[s.len() - 1].created_at));
                    lemma_date_le_trans(s[i].created_at, s.last().created_at, x.created_at);
                }
            } else {
                assert(date_le(s[i].created_at, s[j].created_at));
            }
        }
    } else {
        let t = s.drop_last();
        let l = s.last();
        assert(oldest_first(t)) by {
            assert forall|i: int, j: int| 0 <= i < j < t.len() implies date_le(
                #[trigger] t[i].created_at,
                #[trigger] t[j].created_at,
            ) by {
                assert(date_le(s[i].created_at, s[j].created_at));
            }
        }
        lemma_insert_oldest_first(t, x);
        lemma_insert_members(t, x, None);
        let u = insert_in_order(t, x, None);
        lemma_text_lt_total(l.created_at, x.created_at);
        assert(date_le(x.created_at, l.created_at));
        assert(out == u.push(l));
        assert forall|i: int, j: int| 0 <= i < j < out.len() implies date_le(
            #[trigger] out[i].created_at,
            #[trigger] out[j].created_at,
        ) by {
            if j == u.len() {
                assert(out[i] == u[i]);
                assert(out[j] == l);
                assert(u.contains(u[i]));
                if u[i] != x {
                    assert(t.contains(u[i]));
                    let k = choose|k: int| 0 <= k < t.len() && t[k] == u[i];
                    assert(date_le(s[k].created_at, s[s.len() - 1].created_at));
                }
            } else {
                assert(out[i] == u[i]);
                assert(out[j] == u[j]);
            }
        }
    }
}

proof fn lemma_sorted_oldest_first(s: Seq<PatchSetView>)
    ensures
        oldest_first(sorted_versions(s, None)),
    decreases s.len(),
{
    if s.len() > 0 {
        lemma_sorted_oldest_first(s.drop_last());
        lemma_insert_oldest_first(sorted_versions(s.drop_last(), None), s.last());
    }
}

proof fn lemma_dedup_oldest_first(s: Seq<PatchSetView>)
    requires
        oldest_first(s),
    ensures
        oldest_first(dedup_commits(s)),
        forall|y: PatchSetView| #[trigger] dedup_commits(s).contains(y) ==> s.contains(y),
    decreases s.len(),
{
    if s.len() > 0 {
        let t = s.drop_last();
        let l = s.last();
        assert(oldest_first(t)) by {
            assert forall|i: int, j: int| 0 <= i < j < t.len() implies date_le(
                #[trigger] t[i].created_at,
                #[trigger] t[j].created_at,
            ) by {
                assert(date_le(s[i].created_at, s[j].created_at));
            }
        }
        lemma_dedup_oldest_first(t);
        let d = dedup_commits(t);
        assert forall|y: PatchSetView| t.contains(y) implies s.contains(y) by {
            let k = choose|k: int| 0 <= k < t.len() && t[k] == y;
            assert(s[k] == y);
        }
        if !(d.len() > 0 && d.last().commit == l.commit) {
            let out = d.push(l);
            assert forall|i: int, j: int| 0 <= i < j < out.len() implies date_le(
                #[trigger] out[i].created_at,
                #[trigger] out[j].created_at,
            ) by {
                if j == d.len() {
                    assert(out[i] == d[i]);
                    assert(d.contains(d[i]));
                    let k = choose|k: int| 0 <= k < t.len() && t[k] == d[i];
                    assert(date_le(s[k].created_at, s[s.len() - 1].created_at));
                } else {
                    assert(out[i] == d[i]);
                    assert(out[j] == d[j]);
                }
            }
            assert forall|y: PatchSetView| #[trigger] out.contains(y) implies s.contains(y) by {
                let k = choose|k: int| 0 <= k < out.len() && out[k] == y;
                if k < d.len() {
                    assert(d.contains(out[k]));
                } else {
                    assert(s[s.len() - 1] == y);
                }
            }
        }
    }
}

/// What the older versions hold: each is the entry of an older version
/// named, and each older version named is there.
proof fn lemma_older_members(local: CommitView, prevs: Seq<CommitView>)
    ensures
        forall|k: int|
            0 <= k < older_entries(local, prevs).len() ==> exists|m: int|
                0 <= m < prevs.len() && older_version(local, prevs[m])
                    && #[trigger] older_entries(local, prevs)[k] == entry_view(prevs[m], Origin::Prev),
        forall|m: int|
            0 <= m < prevs.len() && older_version(local, #[trigger] prevs[m]) ==> older_entries(
                local,
                prevs,
            ).contains(entry_view(prevs[m], Origin::Prev)),
    decreases prevs.len(),
{
    if prevs.len() > 0 {
        let t = prevs.drop_last();
        lemma_older_members(local, t);
        let e = older_entries(local, t);
        let out = older_entries(local, prevs);
        assert forall|k: int| 0 <= k < out.len() implies exists|m: int|
            0 <= m < prevs.len() && older_version(local, prevs[m]) && #[trigger] out[k]
                == entry_view(prevs[m], Origin::Prev) by {
            if k < e.len() {
                assert(out[k] == e[k]);
                let m = choose|m: int|
                    0 <= m < t.len() && older_version(local, t[m]) && #[trigger] e[k] == entry_view(
                        t[m],
                        Origin::Prev,
                    );
                assert(prevs[m] == t[m]);
            } else {
                assert(out[k] == entry_view(prevs[prevs.len() - 1], Origin::Prev));
            }
        }
        assert forall|m: int|
            0 <= m < prevs.len() && older_version(local, #[trigger] prevs[m]) implies out.contains(
            entry_view(prevs[m], Origin::Prev),
        ) by {
            if m < t.len() {
                assert(t[m] == prevs[m]);
                assert(e.contains(entry_view(t[m], Origin::Prev)));
                let k = choose|k: int| 0 <= k < e.len() && e[k] == entry_view(t[m], Origin::Prev);
                assert(out[k] == e[k]);
            } else {
                assert(out[out.len() - 1] == entry_view(prevs[m], Origin::Prev));
            }
        }
    }
}

/// Leaving out repeats keeps every commit.
proof fn lemma_dedup_keeps_commits(s: Seq<PatchSetView>)
    ensures
        forall|y: PatchSetView|
            #[trigger] s.contains(y) ==> exists|k: int|
                0 <= k < dedup_commits(s).len() && (#[trigger] dedup_commits(s)[k]).commit == y.commit,
    decreases s.len(),
{
    if s.len() > 0 {
        let t = s.drop_last();
        let l = s.last();
        lemma_dedup_keeps_commits(t);
        let d = dedup_commits(t);
        let out = dedup_commits(s);
        assert forall|y: PatchSetView| #[trigger] s.contains(y) implies exists|k: int|
            0 <= k < out.len() && (#[trigger] out[k]).commit == y.commit by {
            let i = choose|i: int| 0 <= i < s.len() && s[i] == y;
            if i < t.len() {
                assert(t[i] == y);
                assert(t.contains(y));
                let k = choose|k: int| 0 <= k < d.len() && (#[trigger] d[k]).commit == y.commit;
                assert(out[k] == d[k]);
            } else if d.len() > 0 && d.last().commit == l.commit {
                assert(out[d.len() - 1] == d[d.len() - 1]);
            } else {
                assert(out[d.len() as int] == l);
            }
        }
    }
}

/// The patch sets before the local commit are the older versions named,
/// whatever order they were named in: each is the commit of an older
/// version named, and each older version named has a patch set.
pub proof fn law_every_older_version_is_listed(local: CommitView, prevs: Seq<CommitView>)
    ensures
        forall|k: int|
            0 <= k < spec_of_change(local, prevs).len() - 1 ==> exists|m: int|
                0 <= m < prevs.len() && older_version(local, prevs[m])
                    && (#[trigger] spec_of_change(local, prevs)[k]).commit == prevs[m].hash,
        forall|m: int|
            0 <= m < prevs.len() && older_version(local, #[trigger] prevs[m]) ==> exists|k: int|
                0 <= k < spec_of_change(local, prevs).len() - 1 && spec_of_change(local, prevs)[k].commit
                    == prevs[m].hash,
{
    let older = older_entries(local, prevs);
    let sorted = sorted_versions(older, None);
    lemma_older_members(local, prevs);
    lemma_sorted_members(older, None);
    lemma_sorted_oldest_first(older);
    lemma_dedup_oldest_first(sorted);
    lemma_dedup_keeps_commits(sorted);
    let d = dedup_commits(sorted);
    let out = spec_of_change(local, prevs);
    assert(out.len() == d.len() + 1);
    assert forall|k: int| 0 <= k < out.len() - 1 implies exists|m: int|
        0 <= m < prevs.len() && older_version(local, prevs[m]) && (#[trigger] out[k]).commit
            == prevs[m].hash by {
        assert(out[k].commit == d[k].commit);
        assert(d.contains(d[k]));
        assert(sorted.contains(d[k]));
        assert(older.contains(d[k]));
        let i = choose|i: int| 0 <= i < older.len() && older[i] == d[k];
        let m = choose|m: int|
            0 <= m < prevs.len() && older_version(local, prevs[m]) && #[trigger] older[i]
                == entry_view(prevs[m], Origin::Prev);
        assert(out[k].commit == prevs[m].hash);
    }
    assert forall|m: int| 0 <= m < prevs.len() && older_version(local, #[trigger] prevs[m]) implies exists|k: int|
        0 <= k < out.len() - 1 && out[k].commit == prevs[m].hash by {
        let y = entry_view(prevs[m], Origin::Prev);
        assert(older.contains(y));
        assert(sorted.contains(y));
        let k = choose|k: int| 0 <= k < d.len() && (#[trigger] d[k]).commit == y.commit;
        assert(out[k].commit == d[k].commit);
    }
}

/// The older versions of a change come oldest first, whatever order they
/// were named in, so a later commit never gets a lower patch set number
/// than an earlier one: among the patch sets before the local commit, each
/// is dated no later than the ones after it, and one dated strictly earlier
/// than another has the lower number.
pub proof fn law_older_versions_come_oldest_first(local: CommitView, prevs: Seq<CommitView>)
    ensures
        forall|i: int, j: int|
            #![trigger spec_of_change(local, prevs)[i], spec_of_change(local, prevs)[j]]
            0 <= i < j < spec_of_change(local, prevs).len() - 1 ==> date_le(
                spec_of_change(local, prevs)[i].created_at,
                spec_of_change(local, prevs)[j].created_at,
            ),
        forall|i: int, j: int|
            #![trigger spec_of_change(local, prevs)[i], spec_of_change(local, prevs)[j]]
            0 <= i < spec_of_change(local, prevs).len() - 1 && 0 <= j < spec_of_change(local, prevs).len() - 1
                && text_lt(spec_of_change(local, prevs)[i].created_at, spec_of_change(local, prevs)[j].created_at)
                ==> spec_of_change(local, prevs)[i].number < spec_of_change(local, prevs)[j].number,
{
    let older = older_entries(local, prevs);
    let sorted = sorted_versions(older, None);
    lemma_sorted_oldest_first(older);
    lemma_dedup_oldest_first(sorted);
    let d = dedup_commits(sorted);
    let whole = d.push(entry_view(local, Origin::Local));
    let out = spec_of_change(local, prevs);
    assert(out == numbered(whole));
    assert forall|i: int, j: int| 0 <= i < j < out.len() - 1 implies date_le(
        #[trigger] out[i].created_at,
        #[trigger] out[j].created_at,
    ) by {
        assert(out[i].created_at == d[i].created_at);
        assert(out[j].created_at == d[j].created_at);
        assert(date_le(d[i].created_at, d[j].created_at));
    }
    assert forall|i: int, j: int|
        0 <= i < out.len() - 1 && 0 <= j < out.len() - 1 && text_lt(
            #[trigger] out[i].created_at,
            #[trigger] out[j].created_at,
        ) implies out[i].number < out[j].number by {
        assert(out[i].created_at == d[i].created_at);
        assert(out[j].created_at == d[j].created_at);
        if j < i {
            assert(date_le(d[j].created_at, d[i].created_at));
            lemma_text_lt_irreflexive(d[i].created_at);
            if text_lt(d[j].created_at, d[i].created_at) {
                lemma_text_lt_trans(d[i].created_at, d[j].created_at, d[i].created_at);
            }
        } else if j == i {
            lemma_text_lt_irreflexive(d[i].created_at);
        }
    }
}

/// The local commit is the last patch set, and the patch sets are numbered
/// 1, 2, ... in the order they stand.
pub proof fn law_local_is_last(local: CommitView, prevs: Seq<CommitView>)
    ensures
        spec_of_change(local, prevs).len() >= 1,
        spec_of_change(local, prevs).last().commit == local.hash,
        spec_of_change(local, prevs).last().origin == Origin::Local,
        forall|k: int|
            0 <= k < spec_of_change(local, prevs).len() ==> (#[trigger] spec_of_change(
                local,
                prevs,
            )[k]).number == k + 1,
{
}

/// Do two patch sets sit on the same base?
///
/// When they do not, a diff between them carries the rebase noise, and the
/// reader has to be told rather than surprised.
pub fn same_base(a: &PatchSet, b: &PatchSet) -> (r: bool)
    ensures
        r == (a@.parent is Some && a@.parent == b@.parent),
{
    match (&a.parent, &b.parent) {
        (Some(one), Some(two)) => same_str(one.as_str(), two.as_str()),
        _ => false,
    }
}

/// A change of the series claims a commit: it is that commit, or both carry
/// the same `Change-Id`.
pub open spec fn claims(commit: Seq<char>, change_id: Option<Seq<char>>, prev: CommitView) -> bool {
    ||| commit == prev.hash
    ||| change_id is Some && spec_change_id(prev.message) == change_id
}

/// Some change of the series claims the commit.
pub open spec fn claimed(changes: Seq<ChangeSummary>, prev: CommitView) -> bool {
    exists|i: int|
        0 <= i < changes.len() && claims(
            (#[trigger] changes[i]).commit@,
            opt_str(changes[i].change_id),
            prev,
        )
}

/// The commits that no change claims, in the order named.
pub open spec fn spec_unclaimed(prevs: Seq<CommitView>, changes: Seq<ChangeSummary>) -> Seq<
    CommitView,
>
    decreases prevs.len(),
{
    if prevs.len() == 0 {
        Seq::empty()
    } else {
        let u = spec_unclaimed(prevs.drop_last(), changes);
        if claimed(changes, prevs.last()) {
            u
        } else {
            u.push(prevs.last())
        }
    }
}

/// The views of a run of borrowed commits.
pub open spec fn borrowed_view(v: Seq<&CommitInfo>) -> Seq<CommitView> {
    v.map_values(|c: &CommitInfo| c@)
}

/// The change claims the commit.
fn change_claims(change: &ChangeSummary, prev: &CommitInfo) -> (r: bool)
    ensures
        r == claims(change.commit@, opt_str(change.change_id), prev@),
{
    if same_str(change.commit.as_str(), prev.hash.as_str()) {
        return true;
    }
    match &change.change_id {
        Some(mine) => match prev.change_id() {
            Some(theirs) => same_str(mine.as_str(), theirs.as_str()),
            None => false,
        },
        None => false,
    }
}

/// The commits the reader named that no change of the series can claim.
///
/// A `--prev` is placed by its `Change-Id`. A series rewritten commit by
/// commit, rather than amended, carries new ones, and then the commit belongs
/// to nothing. Saying so is the whole of this.
pub fn unclaimed<'a>(prevs: &'a [CommitInfo], changes: &[ChangeSummary]) -> (out: Vec<&'a CommitInfo>)
    ensures
        borrowed_view(out@) == spec_unclaimed(commits_view(prevs@), changes@),
{
    let ghost pv = commits_view(prevs@);
    let mut out: Vec<&'a CommitInfo> = Vec::new();
    let mut i: usize = 0;
    while i < prevs.len()
        invariant
            i <= prevs@.len(),
            pv == commits_view(prevs@),
            borrowed_view(out@) == spec_unclaimed(pv.subrange(0, i as int), changes@),
        decreases prevs@.len() - i,
    {
        let prev = &prevs[i];
        let mut any = false;
        let mut j: usize = 0;
        while j < changes.len()
            invariant
                j <= changes@.len(),
                any == exists|c: int|
                    0 <= c < j && claims(
                        (#[trigger] changes@[c]).commit@,
                        opt_str(changes@[c].change_id),
                        prev@,
                    ),
            decreases changes@.len() - j,
        {
            if change_claims(&changes[j], prev) {
                any = true;
            }
            j = j + 1;
        }
        let ghost sub = pv.subrange(0, i + 1);
        assert(sub.drop_last() == pv.subrange(0, i as int));
        assert(sub.last() == prev@);
        assert(any == claimed(changes@, prev@));
        let ghost before = borrowed_view(out@);
        if !any {
            out.push(prev);
            assert(borrowed_view(out@) =~= before.push(prev@));
        }
        i = i + 1;
    }
    assert(pv.subrange(0, pv.len() as int) == pv);
    out
}

} // verus!
