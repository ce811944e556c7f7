//! What one run knows, and the decisions it makes on it.
//!
//! The run reads git and the store; the choices it makes on what it read
//! stand here: which tree a change is read against, which key a change
//! answers to, where the work that is not committed goes, which versions a
//! change was reviewed on, and which rows a reader gets.

use vstd::prelude::*;
use crate::config::Diff;
use crate::diff::How;
use crate::git::merge::Base;
use crate::lang::{extension, Languages};
use crate::model::{
    hunks_view, opt_view, rows_view, summaries_view, ChangeSummary, ChangeSummaryView, FileDiff,
    FileDiffView, FileEntry, FileEntryView, Hunk, HunkView, Row, RowKind, RowView, Series, Span,
    SpanView, WordSpan,
};
use crate::offsets::{spec_to_utf16, to_utf16};
use crate::gerrit::Change;
use crate::patchset::{sets_view, text_before, text_lt, PatchSet, PatchSetView};
use crate::store::model::{comments_view, ChangeFile, CommentView};
use crate::text::{
    after, chars_of, copy_opt, copy_string, lines, lines_of, lowercase, trim, trim_chars, decimal, decimal_of, extend, extend_str, has_prefix_str,
    parse_usize, parse_usize_chars, same_str, split, split_chars, starts_with, string_of,
    strip_prefix,
};

verus! {

/// What a diff is read against.
#[derive(Clone, Debug)]
pub enum Against {
    /// The parent of the commit, or the auto-merge when it is a merge.
    Parent,
    /// One of the bases a merge offers.
    Merge(Base),
    /// A tree named outright, which is how one patch set is read against
    /// another.
    Tree(String),
}

/// An `Against`, with the name of a tree as characters.
pub enum AgainstView {
    Parent,
    Merge(Base),
    Tree(Seq<char>),
}

impl View for Against {
    type V = AgainstView;

    open spec fn view(&self) -> AgainstView {
        match self {
            Against::Parent => AgainstView::Parent,
            Against::Merge(b) => AgainstView::Merge(*b),
            Against::Tree(t) => AgainstView::Tree(t@),
        }
    }
}

impl Default for Against {
    /// A change is read against its parent unless the reader says otherwise.
    fn default() -> (a: Self)
        ensures
            a@ == AgainstView::Parent,
    {
        Against::Parent
    }
}

/// The bases a reader can name, in words.
pub open spec fn is_word_for_parent(s: Seq<char>) -> bool {
    s == ""@ || s == "default"@ || s == "parent"@
}

/// The message that refuses a base nobody knows.
pub open spec fn unknown_base(other: Seq<char>) -> Seq<char> {
    "base "@ + other + " is not one of parent, automerge, parent1, parent2, ps:<n>"@
}

/// What a base named in a request reads as.
///
/// Nothing, or a word for the parent, is the default; `ps:<n>` keeps the
/// number for the caller to turn into a commit.
pub open spec fn spec_parse_base(value: Option<Seq<char>>) -> Result<Option<AgainstView>, Seq<char>> {
    match value {
        None => Ok(None),
        Some(s) => if is_word_for_parent(s) {
            Ok(None)
        } else if s == "automerge"@ {
            Ok(Some(AgainstView::Merge(Base::AutoMerge)))
        } else if s == "parent1"@ {
            Ok(Some(AgainstView::Merge(Base::Parent(1))))
        } else if s == "parent2"@ {
            Ok(Some(AgainstView::Merge(Base::Parent(2))))
        } else if starts_with(s, "ps:"@) && parse_usize(after(s, "ps:"@)) is Some {
            Ok(Some(AgainstView::Tree("ps:"@ + decimal(parse_usize(after(s, "ps:"@))->0 as nat))))
        } else {
            Err(unknown_base(s))
        },
    }
}

/// The view of a parsed base.
pub open spec fn parsed_view(r: Result<Option<Against>, String>) -> Result<Option<AgainstView>, Seq<char>> {
    match r {
        Ok(None) => Ok(None),
        Ok(Some(a)) => Ok(Some(a@)),
        Err(e) => Err(e@),
    }
}

/// A base is a word, or `ps:<n>` to read one patch set against another.
pub fn parse_base(value: Option<&str>) -> (out: Result<Option<Against>, String>)
    ensures
        parsed_view(out) == spec_parse_base(match value {
            None => None,
            Some(s) => Some(s@),
        }),
{
    let s = match value {
        None => return Ok(None),
        Some(s) => s,
    };
    if same_str(s, "") || same_str(s, "default") || same_str(s, "parent") {
        return Ok(None);
    }
    if same_str(s, "automerge") {
        return Ok(Some(Against::Merge(Base::AutoMerge)));
    }
    if same_str(s, "parent1") {
        return Ok(Some(Against::Merge(Base::Parent(1))));
    }
    if same_str(s, "parent2") {
        return Ok(Some(Against::Merge(Base::Parent(2))));
    }
    let cs = chars_of(s);
    if let Some(rest) = strip_prefix(cs.as_slice(), "ps:") {
        if let Some(number) = parse_usize_chars(rest.as_slice()) {
            // The number is turned into a commit by the caller, which is the
            // only place that knows the patch sets of this change.
            let mut name: Vec<char> = Vec::new();
            extend_str(&mut name, "ps:");
            let digits = decimal_of(number);
            extend(&mut name, digits.as_slice());
            return Ok(Some(Against::Tree(string_of(name.as_slice()))));
        }
    }
    let mut message: Vec<char> = Vec::new();
    extend_str(&mut message, "base ");
    extend(&mut message, cs.as_slice());
    extend_str(&mut message, " is not one of parent, automerge, parent1, parent2, ps:<n>");
    Err(string_of(message.as_slice()))
}

/// The patch set a `ps:<n>` placeholder names.
pub open spec fn spec_patch_set_named(against: AgainstView) -> Option<usize> {
    match against {
        AgainstView::Tree(name) => if starts_with(name, "ps:"@) {
            parse_usize(after(name, "ps:"@))
        } else {
            None
        },
        _ => None,
    }
}

/// The patch set a base names, when it names one rather than a tree.
pub fn patch_set_named(against: &Against) -> (out: Option<usize>)
    ensures
        out == spec_patch_set_named(against@),
{
    match against {
        Against::Tree(name) => {
            let cs = chars_of(name.as_str());
            match strip_prefix(cs.as_slice(), "ps:") {
                Some(rest) => parse_usize_chars(rest.as_slice()),
                None => None,
            }
        },
        _ => None,
    }
}

/// The pieces of a query, joined again with `&`.
pub open spec fn joined_query(parts: Seq<Seq<char>>) -> Seq<char>
    decreases parts.len(),
{
    if parts.len() == 0 {
        Seq::empty()
    } else if parts.len() == 1 {
        parts[0]
    } else {
        joined_query(parts.drop_last()) + "&"@ + parts.last()
    }
}

/// The pieces, in order, that do not carry the token.
pub open spec fn without_t(parts: Seq<Seq<char>>) -> Seq<Seq<char>>
    decreases parts.len(),
{
    if parts.len() == 0 {
        parts
    } else if starts_with(parts.last(), "t="@) {
        without_t(parts.drop_last())
    } else {
        without_t(parts.drop_last()).push(parts.last())
    }
}

/// The pieces of a query that do not carry the token.
pub open spec fn kept_pieces(query: Seq<char>) -> Seq<Seq<char>> {
    without_t(split(query, '&'))
}

/// An address as a trace may print it: the path, and the query without the
/// token.
pub open spec fn spec_without_token(path: Seq<char>, query: Option<Seq<char>>) -> Seq<char> {
    match query {
        None => path,
        Some(q) => if kept_pieces(q).len() == 0 {
            path
        } else {
            path + "?"@ + joined_query(kept_pieces(q))
        },
    }
}

/// An address with the token taken out of its query. A trace goes into a
/// log or a bug report; the token must not.
pub fn without_token(path: &str, query: Option<&str>) -> (out: String)
    ensures
        out@ == spec_without_token(path@, match query {
            None => None,
            Some(q) => Some(q@),
        }),
{
    let q = match query {
        None => return string_of(chars_of(path).as_slice()),
        Some(q) => q,
    };
    let pieces = split_chars(chars_of(q).as_slice(), '&');
    let ghost all = split(q@, '&');
    let mut joined: Vec<char> = Vec::new();
    let mut count: usize = 0;
    let mut i: usize = 0;
    while i < pieces.len()
        invariant
            0 <= i <= pieces@.len(),
            pieces@.len() == all.len(),
            forall|k: int| 0 <= k < pieces@.len() ==> #[trigger] pieces@[k]@ == all[k],
            count as int == without_t(all.take(i as int)).len(),
            joined@ == joined_query(without_t(all.take(i as int))),
            count <= i,
        decreases pieces@.len() - i,
    {
        let ghost before = all.take(i as int);
        let ghost piece = all[i as int];
        assert(all.take(i as int + 1).drop_last() == before);
        assert(all.take(i as int + 1).last() == piece);
        assert(pieces@[i as int]@ == piece);
        if !has_prefix_str(pieces[i].as_slice(), "t=") {
            let ghost k = without_t(before);
            assert(without_t(all.take(i as int + 1)) == k.push(piece));
            if count > 0 {
                joined.push('&');
            }
            extend(&mut joined, pieces[i].as_slice());
            count = count + 1;
            proof {
                reveal_strlit("&");
                assert(k.push(piece).drop_last() == k);
                if k.len() == 0 {
                    assert(k.push(piece)[0] == piece);
                    assert(joined@ == piece);
                }
            }
            assert(joined@ == joined_query(k.push(piece)));
        }
        i = i + 1;
    }
    assert(all.take(pieces@.len() as int) == all);
    if count == 0 {
        return string_of(chars_of(path).as_slice());
    }
    let mut out = chars_of(path);
    proof {
        reveal_strlit("?");
    }
    out.push('?');
    extend(&mut out, joined.as_slice());
    string_of(out.as_slice())
}

/// How to read a diff: the configuration, with the whitespace setting of
/// one request on top.
pub open spec fn spec_how(diff: Diff, ws: Option<Seq<char>>) -> How {
    How {
        context: diff.context,
        syntax: diff.syntax,
        ignore_ws: match ws {
            Some(w) => if w == "ignore"@ {
                true
            } else if w == "keep"@ {
                false
            } else {
                diff.ignore_whitespace
            },
            None => diff.ignore_whitespace,
        },
    }
}

/// How to read the diff, from the query and from the configuration. The
/// query wins for one request; the panel decides the rest.
pub fn how(diff: &Diff, ws: Option<&str>) -> (out: How)
    ensures
        out == spec_how(*diff, match ws {
            None => None,
            Some(w) => Some(w@),
        }),
{
    let ignore_ws = match ws {
        Some(w) => if same_str(w, "ignore") {
            true
        } else if same_str(w, "keep") {
            false
        } else {
            diff.ignore_whitespace
        },
        None => diff.ignore_whitespace,
    };
    How { context: diff.context, syntax: diff.syntax, ignore_ws }
}

/// The longest run of lines one request may open.
pub const MOST_LINES: usize = 2000;

/// A run of lines is asked for from its first line to its last, and no
/// longer than `MOST_LINES`.
pub fn check_run(from: usize, to: usize) -> (out: Result<(), String>)
    ensures
        out is Ok <==> (from <= to && to - from <= MOST_LINES),
        out matches Err(e) ==> e@ == "ask for a run of 2000 lines or fewer"@,
{
    if to < from || to - from > MOST_LINES {
        return Err(string_of(chars_of("ask for a run of 2000 lines or fewer").as_slice()));
    }
    Ok(())
}

} // verus!

verus! {

/// The key a change falls back to when its own is taken: the one a commit
/// with no `Change-Id` carries.
pub open spec fn sha_key(commit: Seq<char>) -> Seq<char> {
    "sha-"@ + commit
}

/// The change with a new key.
pub open spec fn with_key(c: ChangeSummaryView, key: Seq<char>) -> ChangeSummaryView {
    ChangeSummaryView { key, ..c }
}

/// Whether one of the changes answers to the key.
pub open spec fn key_taken(cs: Seq<ChangeSummaryView>, key: Seq<char>) -> bool {
    exists|i: int| 0 <= i < cs.len() && (#[trigger] cs[i]).key == key
}

/// The changes, each later one whose key an earlier one already holds
/// moved to the key of its hash.
pub open spec fn unique_keys(cs: Seq<ChangeSummaryView>) -> Seq<ChangeSummaryView>
    decreases cs.len(),
{
    if cs.len() == 0 {
        cs
    } else {
        let done = unique_keys(cs.drop_last());
        let c = cs.last();
        if key_taken(done, c.key) {
            done.push(with_key(c, sha_key(c.commit)))
        } else {
            done.push(c)
        }
    }
}

/// What `unique_keys` keeps: every change in its place, with its own key
/// or the key of its hash.
pub proof fn lemma_unique_keys_shape(cs: Seq<ChangeSummaryView>)
    ensures
        unique_keys(cs).len() == cs.len(),
        forall|i: int|
            0 <= i < cs.len() ==> {
                let u = #[trigger] unique_keys(cs)[i];
                &&& u == with_key(cs[i], u.key)
                &&& (u.key == cs[i].key || u.key == sha_key(cs[i].commit))
            },
    decreases cs.len(),
{
    if cs.len() > 0 {
        lemma_unique_keys_shape(cs.drop_last());
        let done = unique_keys(cs.drop_last());
        assert forall|i: int| 0 <= i < cs.len() implies {
            let u = #[trigger] unique_keys(cs)[i];
            &&& u == with_key(cs[i], u.key)
            &&& (u.key == cs[i].key || u.key == sha_key(cs[i].commit))
        } by {
            if i < cs.len() - 1 {
                assert(unique_keys(cs)[i] == done[i]);
                assert(cs.drop_last()[i] == cs[i]);
            }
        }
    }
}

proof fn lemma_sha_key_injective(a: Seq<char>, b: Seq<char>)
    requires
        sha_key(a) == sha_key(b),
    ensures
        a == b,
{
    let p = "sha-"@;
    assert(sha_key(a).subrange(p.len() as int, sha_key(a).len() as int) == a);
    assert(sha_key(b).subrange(p.len() as int, sha_key(b).len() as int) == b);
}

proof fn lemma_sha_key_starts(a: Seq<char>)
    ensures
        starts_with(sha_key(a), "sha-"@),
{
    assert(sha_key(a).subrange(0, "sha-"@.len() as int) == "sha-"@);
}

/// No two changes answer to the same key, once `make_keys_unique` has run,
/// when no two changes are one commit and every key that reads as a hash key
/// is the key of the change's own hash.
pub proof fn law_keys_are_unique(cs: Seq<ChangeSummaryView>)
    requires
        forall|i: int, j: int| 0 <= i < j < cs.len() ==> (#[trigger] cs[i]).commit != (#[trigger] cs[j]).commit,
        forall|i: int|
            0 <= i < cs.len() && starts_with((#[trigger] cs[i]).key, "sha-"@) ==> cs[i].key == sha_key(cs[i].commit),
    ensures
        forall|i: int, j: int|
            0 <= i < j < cs.len() ==> (#[trigger] unique_keys(cs)[i]).key != (#[trigger] unique_keys(cs)[j]).key,
    decreases cs.len(),
{
    if cs.len() > 0 {
        let t = cs.drop_last();
        assert forall|i: int, j: int| 0 <= i < j < t.len() implies (#[trigger] t[i]).commit != (#[trigger] t[j]).commit by {
            assert(t[i] == cs[i] && t[j] == cs[j]);
        }
        assert forall|i: int| 0 <= i < t.len() && starts_with((#[trigger] t[i]).key, "sha-"@) implies t[i].key == sha_key(t[i].commit) by {
            assert(t[i] == cs[i]);
        }
        law_keys_are_unique(t);
        lemma_unique_keys_shape(t);
        lemma_unique_keys_shape(cs);
        let done = unique_keys(t);
        let c = cs.last();
        let n = cs.len() - 1;
        let u = unique_keys(cs);
        assert forall|i: int| 0 <= i < n implies u[i] == #[trigger] done[i] by {}
        assert forall|i: int| 0 <= i < n implies (#[trigger] done[i]).key != u[n].key by {
            assert(t[i] == cs[i]);
            if key_taken(done, c.key) {
                // The new key is the hash of the last change, and no key before
                // it reads as that hash.
                assert(u[n].key == sha_key(c.commit));
                if done[i].key == sha_key(c.commit) {
                    lemma_sha_key_starts(c.commit);
                    if done[i].key == cs[i].key {
                        assert(cs[i].key == sha_key(cs[i].commit));
                    }
                    lemma_sha_key_injective(cs[i].commit, c.commit);
                    assert(cs[i].commit != cs[n].commit);
                }
            } else {
                assert(u[n].key == c.key);
                if done[i].key == c.key {
                    assert(key_taken(done, c.key));
                }
            }
        }
        assert forall|i: int, j: int| 0 <= i < j < cs.len() implies (#[trigger] u[i]).key != (#[trigger] u[j]).key by {
            if j < n {
                assert(u[i] == done[i] && u[j] == done[j]);
            } else {
                assert(u[i] == done[i]);
            }
        }
    }
}

/// Make sure no two changes answer to the same key.
///
/// A series can carry the same `Change-Id` twice: a cherry-pick that kept
/// the trailer, a revert, a rebase that went wrong. The later one falls back
/// to its hash, which is what a commit with no trailer at all uses.
pub fn make_keys_unique(changes: &mut Vec<ChangeSummary>)
    ensures
        summaries_view(final(changes)@) == unique_keys(summaries_view(old(changes)@)),
{
    let ghost v = summaries_view(old(changes)@);
    let mut i: usize = 0;
    while i < changes.len()
        invariant
            0 <= i <= changes@.len(),
            changes@.len() == v.len(),
            v == summaries_view(old(changes)@),
            summaries_view(changes@).subrange(0, i as int) == unique_keys(v.subrange(0, i as int)),
            forall|k: int| i <= k < changes@.len() ==> (#[trigger] changes@[k])@ == v[k],
        decreases changes@.len() - i,
    {
        let ghost done = unique_keys(v.subrange(0, i as int));
        let mut taken = false;
        let mut j: usize = 0;
        while j < i
            invariant
                0 <= j <= i < changes@.len(),
                summaries_view(changes@).subrange(0, i as int) == done,
                taken == exists|k: int| 0 <= k < j && (#[trigger] done[k]).key == changes@[i as int].key@,
            decreases i - j,
        {
            assert(done[j as int] == changes@[j as int]@);
            if same_str(changes[j].key.as_str(), changes[i].key.as_str()) {
                taken = true;
            }
            j = j + 1;
        }
        let ghost before = changes@;
        assert(v.subrange(0, i as int + 1).drop_last() == v.subrange(0, i as int));
        assert(v.subrange(0, i as int + 1).last() == v[i as int]);
        if taken {
            let mut c = changes.remove(i);
            let mut k: Vec<char> = Vec::new();
            extend_str(&mut k, "sha-");
            extend(&mut k, chars_of(c.commit.as_str()).as_slice());
            c.key = string_of(k.as_slice());
            changes.insert(i, c);
        }
        proof {
            assert(key_taken(done, v[i as int].key) == taken);
            assert forall|k: int| 0 <= k < i implies (#[trigger] changes@[k]) == before[k] by {}
            assert forall|k: int| i < k < changes@.len() implies (#[trigger] changes@[k]) == before[k] by {}
            assert(summaries_view(changes@).subrange(0, i as int + 1) =~= done.push(changes@[i as int]@));
        }
        i = i + 1;
    }
    assert(summaries_view(changes@).subrange(0, changes@.len() as int) == summaries_view(changes@));
    assert(v.subrange(0, v.len() as int) == v);
}

} // verus!

verus! {

/// The first change that answers to the key.
pub open spec fn first_with_key(cs: Seq<ChangeSummaryView>, key: Seq<char>) -> Option<int>
    decreases cs.len(),
{
    if cs.len() == 0 {
        None
    } else {
        match first_with_key(cs.drop_last(), key) {
            Some(k) => Some(k),
            None => if cs.last().key == key {
                Some(cs.len() - 1)
            } else {
                None
            },
        }
    }
}

proof fn lemma_first_with_key(cs: Seq<ChangeSummaryView>, key: Seq<char>, k: int)
    requires
        0 <= k <= cs.len(),
        forall|j: int| 0 <= j < k ==> (#[trigger] cs[j]).key != key,
        k < cs.len() ==> cs[k].key == key,
    ensures
        first_with_key(cs, key) == (if k < cs.len() {
            Some(k)
        } else {
            None::<int>
        }),
    decreases cs.len(),
{
    if cs.len() > 0 {
        let t = cs.drop_last();
        if k < cs.len() - 1 {
            assert(t[k] == cs[k]);
            assert forall|j: int| 0 <= j < k implies (#[trigger] t[j]).key != key by {
                assert(t[j] == cs[j]);
            }
            lemma_first_with_key(t, key, k);
        } else {
            assert forall|j: int| 0 <= j < t.len() implies (#[trigger] t[j]).key != key by {
                assert(t[j] == cs[j]);
            }
            lemma_first_with_key(t, key, t.len() as int);
        }
    }
}

/// Where the change with the key stands in the list.
pub fn find_change(changes: &Vec<ChangeSummary>, key: &str) -> (k: Option<usize>)
    ensures
        match k {
            Some(k) => first_with_key(summaries_view(changes@), key@) == Some(k as int),
            None => first_with_key(summaries_view(changes@), key@) is None,
        },
{
    let ghost v = summaries_view(changes@);
    let mut i: usize = 0;
    while i < changes.len()
        invariant
            i <= changes@.len(),
            v == summaries_view(changes@),
            forall|j: int| 0 <= j < i ==> (#[trigger] v[j]).key != key@,
        decreases changes@.len() - i,
    {
        assert(v[i as int] == changes@[i as int]@);
        if same_str(changes[i].key.as_str(), key) {
            proof {
                lemma_first_with_key(v, key@, i as int);
            }
            return Some(i);
        }
        i = i + 1;
    }
    proof {
        lemma_first_with_key(v, key@, v.len() as int);
    }
    None
}

/// The commit a change key names: a change of the list, or the merge under
/// the boundary, which is reviewable and stands on the card rather than in
/// the list.
pub open spec fn spec_commit_of(
    changes: Seq<ChangeSummaryView>,
    boundary: Option<Seq<char>>,
    key: Seq<char>,
) -> Option<Seq<char>> {
    match first_with_key(changes, key) {
        Some(i) => Some(changes[i].commit),
        None => match boundary {
            Some(c) => if key == c || key == sha_key(c) {
                Some(c)
            } else {
                None
            },
            None => None,
        },
    }
}

/// The commit a change key names, inside the loaded series.
///
/// A key that is not there is not a failure. It is a question with the
/// answer "no".
pub fn commit_of(series: &Series, key: &str) -> (out: Option<String>)
    ensures
        opt_view(out) == spec_commit_of(
            summaries_view(series.changes@),
            opt_view(series.boundary.commit),
            key@,
        ),
{
    if let Some(i) = find_change(&series.changes, key) {
        proof {
            lemma_first_with_key_found(summaries_view(series.changes@), key@);
        }
        return Some(copy_string(&series.changes[i].commit));
    }
    match &series.boundary.commit {
        Some(c) => {
            let mut k: Vec<char> = Vec::new();
            extend_str(&mut k, "sha-");
            extend(&mut k, chars_of(c.as_str()).as_slice());
            let hashed = string_of(k.as_slice());
            if same_str(key, c.as_str()) || same_str(key, hashed.as_str()) {
                Some(copy_string(c))
            } else {
                None
            }
        },
        None => None,
    }
}

proof fn lemma_first_with_key_found(cs: Seq<ChangeSummaryView>, key: Seq<char>)
    ensures
        first_with_key(cs, key) matches Some(k) ==> 0 <= k < cs.len() && cs[k].key == key,
    decreases cs.len(),
{
    if cs.len() > 0 {
        lemma_first_with_key_found(cs.drop_last(), key);
    }
}

/// The series with the work that is not committed put at its top, taken
/// away, or left alone.
pub open spec fn spec_place_worktree(
    cs: Seq<ChangeSummaryView>,
    found: Option<ChangeSummaryView>,
) -> Seq<ChangeSummaryView> {
    let had = cs.len() > 0 && cs[0].worktree;
    match found {
        Some(c) => if had {
            cs.update(0, c)
        } else {
            seq![c] + cs
        },
        None => if had {
            cs.drop_first()
        } else {
            cs
        },
    }
}

/// Put the work that is not committed at the top of the series, take it
/// away, or leave it alone. True when the counts are to be read again.
pub fn place_worktree(changes: &mut Vec<ChangeSummary>, found: Option<ChangeSummary>) -> (recount: bool)
    ensures
        summaries_view(final(changes)@) == spec_place_worktree(
            summaries_view(old(changes)@),
            match found {
                Some(c) => Some(c@),
                None => None,
            },
        ),
        recount == found is Some,
{
    let had = changes.len() > 0 && changes[0].worktree;
    let ghost v = summaries_view(changes@);
    match found {
        Some(change) => {
            if had {
                changes.remove(0);
            }
            changes.insert(0, change);
            proof {
                if had {
                    assert(summaries_view(changes@) =~= v.update(0, changes@[0]@));
                } else {
                    assert(summaries_view(changes@) =~= seq![changes@[0]@] + v);
                }
            }
            true
        },
        None => {
            if had {
                changes.remove(0);
                assert(summaries_view(changes@) =~= v.drop_first());
            }
            false
        },
    }
}

/// Placing the work that is not committed a second time, with the same
/// answer, changes nothing, when only the top of a series can be that work
/// and the answer is that work.
pub proof fn law_placing_twice_changes_nothing(
    cs: Seq<ChangeSummaryView>,
    found: Option<ChangeSummaryView>,
)
    requires
        forall|i: int| 1 <= i < cs.len() ==> !(#[trigger] cs[i]).worktree,
        found matches Some(c) ==> c.worktree,
    ensures
        spec_place_worktree(spec_place_worktree(cs, found), found) == spec_place_worktree(cs, found),
{
    let once = spec_place_worktree(cs, found);
    if found is None && cs.len() > 0 && cs[0].worktree && cs.len() > 1 {
        assert(once[0] == cs[1]);
    }
    assert(spec_place_worktree(once, found) =~= once);
}

/// After the placing, the top of the series is the work that is not
/// committed exactly when there is such work, and nothing below it is.
pub proof fn law_the_work_stands_at_the_top(cs: Seq<ChangeSummaryView>, found: Option<ChangeSummaryView>)
    requires
        forall|i: int| 1 <= i < cs.len() ==> !(#[trigger] cs[i]).worktree,
        found matches Some(c) ==> c.worktree,
    ensures
        found matches Some(c) ==> spec_place_worktree(cs, found)[0] == c,
        forall|i: int|
            0 <= i < spec_place_worktree(cs, found).len() && (#[trigger] spec_place_worktree(cs, found)[i]).worktree
                ==> i == 0 && found is Some,
{
    let once = spec_place_worktree(cs, found);
    assert forall|i: int| 0 <= i < once.len() && (#[trigger] once[i]).worktree implies i == 0 && found is Some by {
        if found is None && cs.len() > 0 && cs[0].worktree {
            assert(once[i] == cs[i + 1]);
        } else if found is Some && !(cs.len() > 0 && cs[0].worktree) && i > 0 {
            assert(once[i] == cs[i - 1]);
        }
    }
}

/// The versions named in `commits` that are not the current one, each once,
/// in the order they come; an empty name is skipped when `skip_empty`.
pub open spec fn add_versions(
    out: Seq<Seq<char>>,
    commits: Seq<Seq<char>>,
    current: Seq<char>,
    skip_empty: bool,
) -> Seq<Seq<char>>
    decreases commits.len(),
{
    if commits.len() == 0 {
        out
    } else {
        let r = add_versions(out, commits.drop_last(), current, skip_empty);
        let c = commits.last();
        if (skip_empty && c.len() == 0) || c == current || r.contains(c) {
            r
        } else {
            r.push(c)
        }
    }
}

/// The texts of a run of strings.
pub open spec fn names_view(v: Seq<String>) -> Seq<Seq<char>> {
    v.map_values(|s: String| s@)
}

/// The commits the comments were written against.
pub open spec fn commits_of(cs: Seq<CommentView>) -> Seq<Seq<char>> {
    cs.map_values(|c: CommentView| c.commit)
}

/// The versions of a change that carry a remark and are not the one under
/// review, then the ones the reflog links to it. A change whose file could
/// not be read has none.
pub open spec fn spec_reviewed_versions(
    file: Option<Seq<CommentView>>,
    linked: Seq<Seq<char>>,
    current: Seq<char>,
) -> Seq<Seq<char>> {
    match file {
        None => Seq::empty(),
        Some(cs) => add_versions(
            add_versions(Seq::empty(), commits_of(cs), current, true),
            linked,
            current,
            false,
        ),
    }
}

/// Add the versions named in `commits` to `out`.
fn add_named(out: &mut Vec<String>, commits: &Vec<String>, current: &str, skip_empty: bool)
    ensures
        names_view(final(out)@) == add_versions(
            names_view(old(out)@),
            names_view(commits@),
            current@,
            skip_empty,
        ),
{
    let ghost start = names_view(out@);
    let ghost all = names_view(commits@);
    let mut i: usize = 0;
    while i < commits.len()
        invariant
            0 <= i <= commits@.len(),
            all == names_view(commits@),
            names_view(out@) == add_versions(start, all.take(i as int), current@, skip_empty),
        decreases commits@.len() - i,
    {
        let ghost have = names_view(out@);
        assert(all.take(i as int + 1).drop_last() == all.take(i as int));
        assert(all.take(i as int + 1).last() == commits@[i as int]@);
        let c = commits[i].as_str();
        let mut seen = false;
        let mut j: usize = 0;
        while j < out.len()
            invariant
                0 <= j <= out@.len(),
                have == names_view(out@),
                seen == exists|k: int| 0 <= k < j && have[k] == c@,
            decreases out@.len() - j,
        {
            assert(have[j as int] == out@[j as int]@);
            if same_str(out[j].as_str(), c) {
                seen = true;
            }
            j = j + 1;
        }
        proof {
            if seen {
                let k = choose|k: int| 0 <= k < out@.len() && have[k] == c@;
                assert(have.contains(c@));
            }
            if have.contains(c@) {
                let k = choose|k: int| 0 <= k < have.len() && have[k] == c@;
                assert(seen);
            }
        }
        if !((skip_empty && c.is_empty()) || same_str(c, current) || seen) {
            out.push(copy_string(&commits[i]));
            assert(names_view(out@) =~= have.push(c@));
        }
        i = i + 1;
    }
    assert(all.take(commits@.len() as int) == all);
}

/// The versions of a change that carry a remark, and are not the one under
/// review, with the ones the reflog links to the change after them.
///
/// An amend gives the change a new sha. The remarks stay, and each names
/// the commit it was written against: the version the reader reviewed last
/// time, found without being told.
pub fn reviewed_versions(file: Option<&ChangeFile>, linked: &Vec<String>, current: &str) -> (out: Vec<String>)
    ensures
        names_view(out@) == spec_reviewed_versions(
            match file {
                Some(f) => Some(comments_view(f.comments@)),
                None => None,
            },
            names_view(linked@),
            current@,
        ),
{
    let mut out: Vec<String> = Vec::new();
    let f = match file {
        None => {
            assert(names_view(out@) =~= Seq::empty());
            return out;
        },
        Some(f) => f,
    };
    let mut commits: Vec<String> = Vec::new();
    let mut i: usize = 0;
    while i < f.comments.len()
        invariant
            0 <= i <= f.comments@.len(),
            names_view(commits@) == commits_of(comments_view(f.comments@)).take(i as int),
        decreases f.comments@.len() - i,
    {
        assert(comments_view(f.comments@)[i as int] == f.comments@[i as int]@);
        assert(commits_of(comments_view(f.comments@))[i as int] == f.comments@[i as int].commit@);
        let ghost want = commits_of(comments_view(f.comments@));
        let ghost prev = commits@;
        assert(want.len() == f.comments@.len());
        assert(names_view(prev).len() == prev.len());
        assert(prev.len() == i);
        commits.push(copy_string(&f.comments[i].commit));
        assert forall|k: int| 0 <= k < i + 1 implies #[trigger] names_view(commits@)[k] == want.take(i as int + 1)[k] by {
            if k < i {
                assert(commits@[k] == prev[k]);
                assert(prev.map_values(|s: String| s@)[k] == want.take(i as int)[k]);
            }
        }
        assert(names_view(commits@) =~= want.take(i as int + 1));
        i = i + 1;
    }
    assert(commits_of(comments_view(f.comments@)).take(f.comments@.len() as int) =~= commits_of(comments_view(f.comments@)));
    assert(names_view(out@) =~= Seq::<Seq<char>>::empty());
    add_named(&mut out, &commits, current, true);
    add_named(&mut out, linked, current, false);
    out
}

/// What `add_versions` keeps: no name twice, and never the current one, when
/// the list it starts from holds neither.
pub proof fn lemma_add_versions(out: Seq<Seq<char>>, commits: Seq<Seq<char>>, current: Seq<char>, skip_empty: bool)
    requires
        forall|i: int, j: int| 0 <= i < j < out.len() ==> out[i] != out[j],
        !out.contains(current),
    ensures
        forall|i: int, j: int|
            0 <= i < j < add_versions(out, commits, current, skip_empty).len()
                ==> add_versions(out, commits, current, skip_empty)[i] != add_versions(out, commits, current, skip_empty)[j],
        !add_versions(out, commits, current, skip_empty).contains(current),
    decreases commits.len(),
{
    if commits.len() > 0 {
        lemma_add_versions(out, commits.drop_last(), current, skip_empty);
        let r = add_versions(out, commits.drop_last(), current, skip_empty);
        let c = commits.last();
        if !((skip_empty && c.len() == 0) || c == current || r.contains(c)) {
            let n = r.push(c);
            assert forall|i: int, j: int| 0 <= i < j < n.len() implies n[i] != n[j] by {
                if j == r.len() {
                    assert(n[i] == r[i]);
                    assert(r.contains(r[i]));
                }
            }
            assert(!n.contains(current)) by {
                if n.contains(current) {
                    let k = choose|k: int| 0 <= k < n.len() && n[k] == current;
                    if k < r.len() {
                        assert(r.contains(r[k]));
                    }
                }
            }
        }
    }
}

/// The versions a change was reviewed on are named once each, and never
/// the one under review.
pub proof fn law_reviewed_versions_are_distinct(
    file: Option<Seq<CommentView>>,
    linked: Seq<Seq<char>>,
    current: Seq<char>,
)
    ensures
        forall|i: int, j: int|
            0 <= i < j < spec_reviewed_versions(file, linked, current).len()
                ==> spec_reviewed_versions(file, linked, current)[i] != spec_reviewed_versions(file, linked, current)[j],
        !spec_reviewed_versions(file, linked, current).contains(current),
{
    if let Some(cs) = file {
        let e = Seq::<Seq<char>>::empty();
        lemma_add_versions(e, commits_of(cs), current, true);
        lemma_add_versions(add_versions(e, commits_of(cs), current, true), linked, current, false);
    }
}

} // verus!

verus! {

/// The language the table gives a path, or nothing, which leaves the choice
/// to the highlighter.
pub open spec fn language_for(langs: Languages, path: Seq<char>) -> Seq<char> {
    match extension(path) {
        Some(e) => match langs.language(lowercase(e)) {
            Some(l) => l,
            None => Seq::empty(),
        },
        None => Seq::empty(),
    }
}

/// Whether a file is one of the touched paths, by its path or by the path
/// it had before a rename.
pub open spec fn is_touched(e: FileEntryView, touched: Seq<Seq<char>>) -> bool {
    touched.contains(e.path) || (e.old_path matches Some(old) && touched.contains(old))
}

/// The files kept, in order: all of them, or those the changes touch.
pub open spec fn kept_files(es: Seq<FileEntryView>, touched: Option<Seq<Seq<char>>>) -> Seq<FileEntryView>
    decreases es.len(),
{
    if es.len() == 0 {
        es
    } else {
        let r = kept_files(es.drop_last(), touched);
        let e = es.last();
        match touched {
            Some(t) => if is_touched(e, t) {
                r.push(e)
            } else {
                r
            },
            None => r.push(e),
        }
    }
}

/// The files with the language of each filled in.
pub open spec fn with_languages(es: Seq<FileEntryView>, langs: Languages) -> Seq<FileEntryView> {
    es.map_values(|e: FileEntryView| FileEntryView { language: language_for(langs, e.path), ..e })
}

/// The views of a sequence of file entries.
pub open spec fn entries_view(es: Seq<FileEntry>) -> Seq<FileEntryView> {
    es.map_values(|e: FileEntry| e@)
}

/// Whether a name is one of a list.
fn holds_name(names: &Vec<String>, name: &str) -> (b: bool)
    ensures
        b == names_view(names@).contains(name@),
{
    let ghost v = names_view(names@);
    let mut i: usize = 0;
    while i < names.len()
        invariant
            0 <= i <= names@.len(),
            v == names_view(names@),
            forall|k: int| 0 <= k < i ==> v[k] != name@,
        decreases names@.len() - i,
    {
        assert(v[i as int] == names@[i as int]@);
        if same_str(names[i].as_str(), name) {
            assert(v.contains(name@)) by {
                assert(v[i as int] == name@);
            }
            return true;
        }
        i = i + 1;
    }
    false
}

/// A copy of a file entry, with the language given.
fn entry_in(e: &FileEntry, language: String) -> (out: FileEntry)
    ensures
        out@ == (FileEntryView { language: language@, ..e@ }),
{
    FileEntry {
        path: copy_string(&e.path),
        old_path: copy_opt(&e.old_path),
        status: e.status,
        language,
        binary: e.binary,
        added: e.added,
        removed: e.removed,
    }
}

/// The file list a reader gets: between two versions of one change, only
/// the files the change itself touches, since everything a rebase brought
/// sits between them too; and each file with its language.
pub fn files_for_reader(entries: &Vec<FileEntry>, touched: Option<&Vec<String>>, langs: &Languages) -> (out: Vec<FileEntry>)
    ensures
        entries_view(out@) == with_languages(
            kept_files(entries_view(entries@), match touched {
                Some(t) => Some(names_view(t@)),
                None => None,
            }),
            *langs,
        ),
{
    let ghost tv = match touched {
        Some(t) => Some(names_view(t@)),
        None => None::<Seq<Seq<char>>>,
    };
    let ghost ev = entries_view(entries@);
    let mut out: Vec<FileEntry> = Vec::new();
    let mut i: usize = 0;
    while i < entries.len()
        invariant
            0 <= i <= entries@.len(),
            ev == entries_view(entries@),
            entries_view(out@) == with_languages(kept_files(ev.take(i as int), tv), *langs),
            tv == match touched {
                Some(t) => Some(names_view(t@)),
                None => None::<Seq<Seq<char>>>,
            },
        decreases entries@.len() - i,
    {
        let e = &entries[i];
        let ghost ew = ev[i as int];
        assert(ew == e@);
        assert(ev.take(i as int + 1).drop_last() == ev.take(i as int));
        assert(ev.take(i as int + 1).last() == ew);
        let keep = match touched {
            Some(t) => holds_name(t, e.path.as_str()) || match &e.old_path {
                Some(old) => holds_name(t, old.as_str()),
                None => false,
            },
            None => true,
        };
        let ghost before = out@;
        if keep {
            let language = match langs.of(e.path.as_str()) {
                Some(l) => string_of(chars_of(l).as_slice()),
                None => string_of(Vec::<char>::new().as_slice()),
            };
            assert(language@ == language_for(*langs, e.path@));
            out.push(entry_in(e, language));
            proof {
                let k = kept_files(ev.take(i as int), tv);
                assert(kept_files(ev.take(i as int + 1), tv) == k.push(ew));
                let w = with_languages(k.push(ew), *langs);
                assert(entries_view(before) == with_languages(k, *langs));
                assert(entries_view(before).len() == before.len());
                assert(with_languages(k, *langs).len() == k.len());
                assert(before.len() == k.len());
                assert(out@.len() == k.len() + 1);
                assert forall|j: int| 0 <= j < out@.len() implies #[trigger] entries_view(out@)[j] == w[j] by {
                    if j < before.len() {
                        assert(out@[j] == before[j]);
                        assert(entries_view(before)[j] == before[j]@);
                        assert(k.push(ew)[j] == k[j]);
                    } else {
                        assert(k.push(ew)[j] == ew);
                    }
                }
                assert(entries_view(out@) =~= w);
            }
        } else {
            assert(kept_files(ev.take(i as int + 1), tv) == kept_files(ev.take(i as int), tv));
        }
        i = i + 1;
    }
    assert(ev.take(entries@.len() as int) == ev);
    out
}

} // verus!

verus! {

/// The rows of every hunk, one after the other.
pub open spec fn all_rows(hs: Seq<HunkView>) -> Seq<RowView>
    decreases hs.len(),
{
    if hs.len() == 0 {
        Seq::empty()
    } else {
        all_rows(hs.drop_last()) + hs.last().rows
    }
}

/// A line number, or zero for a row with none.
pub open spec fn line_or_zero(l: Option<usize>) -> nat {
    match l {
        Some(n) => n as nat,
        None => 0,
    }
}

/// The deepest line the rows reach on one side. A row of the old side is a
/// removal, and every other row belongs to the new one.
pub open spec fn deepest(rows: Seq<RowView>, old_side: bool) -> nat
    decreases rows.len(),
{
    if rows.len() == 0 {
        0
    } else {
        let d = deepest(rows.drop_last(), old_side);
        let r = rows.last();
        let here = if old_side {
            if r.kind == RowKind::Remove { line_or_zero(r.old_line) } else { 0 }
        } else {
            if r.kind == RowKind::Remove { 0 } else { line_or_zero(r.new_line) }
        };
        if here > d { here } else { d }
    }
}

/// The deepest line each side of a diff shows, old first. Nothing below
/// these two lines is painted.
pub fn last_lines(file: &FileDiff) -> (out: (usize, usize))
    ensures
        out.0 == deepest(all_rows(file@.hunks), true),
        out.1 == deepest(all_rows(file@.hunks), false),
{
    let ghost hs = file@.hunks;
    let mut old: usize = 0;
    let mut new: usize = 0;
    let mut h: usize = 0;
    while h < file.hunks.len()
        invariant
            0 <= h <= file.hunks@.len(),
            hs == file@.hunks,
            hs.len() == file.hunks@.len(),
            old == deepest(all_rows(hs.take(h as int)), true),
            new == deepest(all_rows(hs.take(h as int)), false),
        decreases file.hunks@.len() - h,
    {
        let hunk = &file.hunks[h];
        let ghost base = all_rows(hs.take(h as int));
        let ghost rs = hs[h as int].rows;
        assert(hs[h as int] == hunk@);
        let mut r: usize = 0;
        while r < hunk.rows.len()
            invariant
                0 <= r <= hunk.rows@.len(),
                rs == rows_view(hunk.rows@),
                old == deepest(base + rs.take(r as int), true),
                new == deepest(base + rs.take(r as int), false),
            decreases hunk.rows@.len() - r,
        {
            let row = &hunk.rows[r];
            assert(rs[r as int] == row@);
            assert((base + rs.take(r as int + 1)).drop_last() == base + rs.take(r as int));
            assert((base + rs.take(r as int + 1)).last() == row@);
            match row.kind {
                RowKind::Remove => {
                    let n = match row.old_line { Some(n) => n, None => 0 };
                    if n > old {
                        old = n;
                    }
                },
                _ => {
                    let n = match row.new_line { Some(n) => n, None => 0 };
                    if n > new {
                        new = n;
                    }
                },
            }
            r = r + 1;
        }
        assert(rs.take(rs.len() as int) == rs);
        assert(hs.take(h as int + 1).drop_last() == hs.take(h as int));
        assert(hs.take(h as int + 1).last() == hs[h as int]);
        h = h + 1;
    }
    assert(hs.take(hs.len() as int) == hs);
    (old, new)
}

/// A copy of a run of spans.
pub fn copy_spans(v: &Vec<Span>) -> (out: Vec<Span>)
    ensures
        out@.map_values(|s: Span| s@) == v@.map_values(|s: Span| s@),
{
    let mut out: Vec<Span> = Vec::new();
    let mut i: usize = 0;
    while i < v.len()
        invariant
            0 <= i <= v@.len(),
            out@.len() == i,
            forall|k: int| 0 <= k < i ==> (#[trigger] out@[k])@ == v@[k]@,
        decreases v@.len() - i,
    {
        out.push(Span { start: v[i].start, end: v[i].end, cls: copy_string(&v[i].cls) });
        i = i + 1;
    }
    assert(out@.map_values(|s: Span| s@) =~= v@.map_values(|s: Span| s@));
    out
}

/// The views of the spans of each line.
pub open spec fn lines_spans(v: Seq<Vec<Span>>) -> Seq<Seq<SpanView>> {
    v.map_values(|l: Vec<Span>| l@.map_values(|s: Span| s@))
}

/// The spans a line is painted with, or none past the end of the list.
pub open spec fn spans_at(spans: Seq<Seq<SpanView>>, k: int) -> Seq<SpanView> {
    if 0 <= k < spans.len() { spans[k] } else { Seq::empty() }
}

/// The row of context the reader opens for line `number` of a file.
pub open spec fn context_row(ls: Seq<Seq<char>>, spans: Seq<Seq<SpanView>>, number: int) -> RowView {
    spec_to_utf16(RowView {
        kind: RowKind::Context,
        old_line: None,
        new_line: Some(number as usize),
        text: ls[number - 1],
        no_newline: false,
        tokens: spans_at(spans, number - 1),
        words: Seq::empty(),
    })
}

/// The first line a run opens: at least the first of the file.
pub open spec fn run_from(from: usize) -> int {
    if from < 1 { 1 } else { from as int }
}

/// The last line a run opens: at most the last of the file.
pub open spec fn run_to(to: usize, count: nat) -> int {
    if to < count { to as int } else { count as int }
}

/// The rows of lines `from` to `to` of a text, as context rows, each with
/// the spans of its line.
pub open spec fn spec_context_rows(
    text: Seq<char>,
    from: usize,
    to: usize,
    spans: Seq<Seq<SpanView>>,
) -> Seq<RowView> {
    let ls = lines(text);
    let f = run_from(from);
    let t = run_to(to, ls.len());
    Seq::new(if t >= f { (t - f + 1) as nat } else { 0 }, |k: int| context_row(ls, spans, f + k))
}

/// A run of lines of a file, as context rows.
///
/// The diff carries only what changed and the few lines around it. This is
/// how the reader opens the rest, a piece at a time.
pub fn context_rows(text: &str, from: usize, to: usize, spans: &Vec<Vec<Span>>) -> (out: Vec<Row>)
    ensures
        rows_view(out@) == spec_context_rows(text@, from, to, lines_spans(spans@)),
{
    let all = lines_of(chars_of(text).as_slice());
    let ghost ls = lines(text@);
    let ghost sv = lines_spans(spans@);
    let f: usize = if from < 1 { 1 } else { from };
    let t: usize = if to < all.len() { to } else { all.len() };
    let mut rows: Vec<Row> = Vec::new();
    if t < f {
        assert(rows_view(rows@) =~= spec_context_rows(text@, from, to, sv));
        return rows;
    }
    let count = t - f + 1;
    let mut k: usize = 0;
    while k < count
        invariant
            0 <= k <= count,
            count == t - f + 1,
            1 <= f <= t <= all@.len(),
            f == run_from(from),
            t == run_to(to, ls.len()),
            all@.len() == ls.len(),
            forall|j: int| 0 <= j < all@.len() ==> #[trigger] all@[j]@ == ls[j],
            sv == lines_spans(spans@),
            rows@.len() == k,
            forall|j: int| 0 <= j < k ==> (#[trigger] rows@[j])@ == context_row(ls, sv, f + j),
        decreases count - k,
    {
        let number = f + k;
        let tokens = if number - 1 < spans.len() {
            copy_spans(&spans[number - 1])
        } else {
            Vec::new()
        };
        proof {
            if number - 1 < spans@.len() {
                assert(sv[number - 1] == spans@[number - 1]@.map_values(|s: Span| s@));
            }
        }
        let mut row = Row {
            kind: RowKind::Context,
            old_line: None,
            new_line: Some(number),
            text: string_of(all[number - 1].as_slice()),
            no_newline: false,
            tokens,
            words: Vec::new(),
        };
        assert(row@.tokens =~= spans_at(sv, number - 1));
        assert(row@.words =~= Seq::<WordSpan>::empty());
        to_utf16(&mut row);
        rows.push(row);
        k = k + 1;
    }
    assert(rows_view(rows@) =~= spec_context_rows(text@, from, to, sv));
    rows
}

/// The spans a row takes from the painted sides: the old side for a
/// removal, the new one for every other row, and its own where that side
/// has nothing for its line.
pub open spec fn painted_tokens(
    r: RowView,
    new_side: Option<Seq<Seq<SpanView>>>,
    old_side: Option<Seq<Seq<SpanView>>>,
) -> Seq<SpanView> {
    let side = if r.kind == RowKind::Remove { old_side } else { new_side };
    let line = if r.kind == RowKind::Remove { r.old_line } else { r.new_line };
    match side {
        Some(ls) => match line {
            Some(n) => if 1 <= n && n - 1 < ls.len() { ls[n - 1] } else { r.tokens },
            None => r.tokens,
        },
        None => r.tokens,
    }
}

/// The rows with their spans put on.
pub open spec fn painted_rows(
    rs: Seq<RowView>,
    new_side: Option<Seq<Seq<SpanView>>>,
    old_side: Option<Seq<Seq<SpanView>>>,
) -> Seq<RowView> {
    rs.map_values(|r: RowView| RowView { tokens: painted_tokens(r, new_side, old_side), ..r })
}

/// The hunks with their spans put on.
pub open spec fn painted_hunks(
    hs: Seq<HunkView>,
    new_side: Option<Seq<Seq<SpanView>>>,
    old_side: Option<Seq<Seq<SpanView>>>,
) -> Seq<HunkView> {
    hs.map_values(|h: HunkView| HunkView { rows: painted_rows(h.rows, new_side, old_side), ..h })
}

/// The painted side, as views.
pub open spec fn side_view(s: Option<&Vec<Vec<Span>>>) -> Option<Seq<Seq<SpanView>>> {
    match s {
        Some(v) => Some(lines_spans(v@)),
        None => None,
    }
}

/// A copy of a row with the spans given.
fn row_with(r: &Row, tokens: Vec<Span>) -> (out: Row)
    ensures
        out@ == (RowView { tokens: tokens@.map_values(|s: Span| s@), ..r@ }),
{
    let mut words: Vec<WordSpan> = Vec::new();
    let mut i: usize = 0;
    while i < r.words.len()
        invariant
            0 <= i <= r.words@.len(),
            words@ == r.words@.take(i as int),
        decreases r.words@.len() - i,
    {
        words.push(r.words[i]);
        assert(words@ =~= r.words@.take(i as int + 1));
        i = i + 1;
    }
    assert(r.words@.take(r.words@.len() as int) == r.words@);
    Row {
        kind: r.kind,
        old_line: r.old_line,
        new_line: r.new_line,
        text: copy_string(&r.text),
        no_newline: r.no_newline,
        tokens,
        words,
    }
}

/// The spans of one row, from the painted sides.
fn tokens_for(r: &Row, new_side: Option<&Vec<Vec<Span>>>, old_side: Option<&Vec<Vec<Span>>>) -> (out: Vec<Span>)
    ensures
        out@.map_values(|s: Span| s@) == painted_tokens(r@, side_view(new_side), side_view(old_side)),
{
    let (side, line) = match r.kind {
        RowKind::Remove => (old_side, r.old_line),
        _ => (new_side, r.new_line),
    };
    match side {
        Some(ls) => match line {
            Some(n) => if 1 <= n && n - 1 < ls.len() {
                proof {
                    assert(lines_spans(ls@)[n - 1] == ls@[n - 1]@.map_values(|s: Span| s@));
                }
                copy_spans(&ls[n - 1])
            } else {
                copy_spans(&r.tokens)
            },
            None => copy_spans(&r.tokens),
        },
        None => copy_spans(&r.tokens),
    }
}

/// Put the syntax spans of both sides on every row of a diff.
///
/// A line is highlighted with the whole file around it, never alone, so the
/// spans come per line of each side; a side that could not be read leaves
/// its rows as they were. The new side says how many lines the file has.
pub fn paint(file: &mut FileDiff, line_count: Option<usize>, new_side: Option<&Vec<Vec<Span>>>, old_side: Option<&Vec<Vec<Span>>>)
    ensures
        final(file)@ == (FileDiffView {
            hunks: painted_hunks(old(file)@.hunks, side_view(new_side), side_view(old_side)),
            line_count,
            ..old(file)@
        }),
{
    let ghost nv = side_view(new_side);
    let ghost ov = side_view(old_side);
    let mut hunks: Vec<Hunk> = Vec::new();
    let mut h: usize = 0;
    while h < file.hunks.len()
        invariant
            0 <= h <= file.hunks@.len(),
            file@ == old(file)@,
            nv == side_view(new_side),
            ov == side_view(old_side),
            hunks_view(hunks@) == painted_hunks(file@.hunks.take(h as int), nv, ov),
        decreases file.hunks@.len() - h,
    {
        let hunk = &file.hunks[h];
        let mut rows: Vec<Row> = Vec::new();
        let mut r: usize = 0;
        while r < hunk.rows.len()
            invariant
                0 <= r <= hunk.rows@.len(),
                nv == side_view(new_side),
                ov == side_view(old_side),
                rows_view(rows@) == painted_rows(rows_view(hunk.rows@).take(r as int), nv, ov),
            decreases hunk.rows@.len() - r,
        {
            let tokens = tokens_for(&hunk.rows[r], new_side, old_side);
            let row = row_with(&hunk.rows[r], tokens);
            let ghost before = rows@;
            proof {
                assert(rows_view(before).len() == before.len());
                assert(rows_view(hunk.rows@).len() == hunk.rows@.len());
                assert(painted_rows(rows_view(hunk.rows@).take(r as int), nv, ov).len() == r);
            }
            rows.push(row);
            proof {
                let want = painted_rows(rows_view(hunk.rows@).take(r as int + 1), nv, ov);
                assert(rows_view(hunk.rows@)[r as int] == hunk.rows@[r as int]@);
                assert forall|j: int| 0 <= j < rows@.len() implies #[trigger] rows_view(rows@)[j] == want[j] by {
                    if j < r {
                        assert(rows@[j] == before[j]);
                        assert(rows_view(before)[j] == before[j]@);
                    }
                }
                assert(rows_view(rows@) =~= want);
            }
            r = r + 1;
        }
        assert(rows_view(hunk.rows@).take(hunk.rows@.len() as int) == rows_view(hunk.rows@));
        let ghost before = hunks@;
        proof {
            assert(hunks_view(before).len() == before.len());
            assert(painted_hunks(file@.hunks.take(h as int), nv, ov).len() == h);
        }
        hunks.push(Hunk {
            old_start: hunk.old_start,
            old_lines: hunk.old_lines,
            new_start: hunk.new_start,
            new_lines: hunk.new_lines,
            header: copy_string(&hunk.header),
            rows,
        });
        proof {
            let want = painted_hunks(file@.hunks.take(h as int + 1), nv, ov);
            assert(file@.hunks[h as int] == hunk@);
            assert forall|j: int| 0 <= j < hunks@.len() implies #[trigger] hunks_view(hunks@)[j] == want[j] by {
                if j < h {
                    assert(hunks@[j] == before[j]);
                    assert(hunks_view(before)[j] == before[j]@);
                }
            }
            assert(hunks_view(hunks@) =~= want);
        }
        h = h + 1;
    }
    assert(file@.hunks.take(file@.hunks.len() as int) == file@.hunks);
    file.hunks = hunks;
    file.line_count = line_count;
}

} // verus!

verus! {

/// Every row of every hunk with its offsets counted in UTF-16 units.
pub open spec fn hunks_in_utf16(hs: Seq<HunkView>) -> Seq<HunkView> {
    hs.map_values(|h: HunkView| HunkView { rows: h.rows.map_values(|r: RowView| spec_to_utf16(r)), ..h })
}

/// The last step before a row leaves for the browser, which slices by
/// UTF-16 units while everything above counts bytes.
pub fn rows_to_utf16(file: &mut FileDiff)
    ensures
        final(file)@ == (FileDiffView { hunks: hunks_in_utf16(old(file)@.hunks), ..old(file)@ }),
{
    let mut hunks: Vec<Hunk> = Vec::new();
    std::mem::swap(&mut hunks, &mut file.hunks);
    let ghost hv = hunks_view(hunks@);
    assert(hv == old(file)@.hunks);
    let mut out: Vec<Hunk> = Vec::new();
    let mut h: usize = 0;
    while h < hunks.len()
        invariant
            0 <= h <= hunks@.len(),
            hv == hunks_view(hunks@),
            hunks_view(out@) == hunks_in_utf16(hv.take(h as int)),
        decreases hunks@.len() - h,
    {
        let hunk = &hunks[h];
        let mut rows: Vec<Row> = Vec::new();
        let mut r: usize = 0;
        while r < hunk.rows.len()
            invariant
                0 <= r <= hunk.rows@.len(),
                rows_view(rows@) == rows_view(hunk.rows@).take(r as int).map_values(|x: RowView| spec_to_utf16(x)),
            decreases hunk.rows@.len() - r,
        {
            let tokens = copy_spans(&hunk.rows[r].tokens);
            let mut row = row_with(&hunk.rows[r], tokens);
            to_utf16(&mut row);
            let ghost before = rows@;
            proof {
                assert(rows_view(before).len() == before.len());
                assert(rows_view(hunk.rows@).len() == hunk.rows@.len());
            }
            rows.push(row);
            proof {
                let want = rows_view(hunk.rows@).take(r as int + 1).map_values(|x: RowView| spec_to_utf16(x));
                assert(rows_view(hunk.rows@)[r as int] == hunk.rows@[r as int]@);
                assert(hunk.rows@[r as int]@.tokens =~= hunk.rows@[r as int].tokens@.map_values(|s: Span| s@));
                assert forall|j: int| 0 <= j < rows@.len() implies #[trigger] rows_view(rows@)[j] == want[j] by {
                    if j < r {
                        assert(rows@[j] == before[j]);
                        assert(rows_view(before)[j] == before[j]@);
                    }
                }
                assert(rows_view(rows@) =~= want);
            }
            r = r + 1;
        }
        assert(rows_view(hunk.rows@).take(hunk.rows@.len() as int) == rows_view(hunk.rows@));
        let ghost before = out@;
        proof {
            assert(hunks_view(before).len() == before.len());
            assert(hunks_in_utf16(hv.take(h as int)).len() == h);
        }
        out.push(Hunk {
            old_start: hunk.old_start,
            old_lines: hunk.old_lines,
            new_start: hunk.new_start,
            new_lines: hunk.new_lines,
            header: copy_string(&hunk.header),
            rows,
        });
        proof {
            let want = hunks_in_utf16(hv.take(h as int + 1));
            assert(hv[h as int] == hunk@);
            assert forall|j: int| 0 <= j < out@.len() implies #[trigger] hunks_view(out@)[j] == want[j] by {
                if j < h {
                    assert(out@[j] == before[j]);
                    assert(hunks_view(before)[j] == before[j]@);
                }
            }
            assert(hunks_view(out@) =~= want);
        }
        h = h + 1;
    }
    assert(hv.take(hv.len() as int) == hv);
    file.hunks = out;
}

/// The name of the branch being reviewed, for a person to read: the one
/// the server is asked about when there is one, else the one git checked
/// out, and "detached" when git names none.
pub open spec fn spec_branch_name(server: Option<Seq<char>>, out: Seq<char>) -> Seq<char> {
    match server {
        Some(b) => b,
        None => if trim(out) == ""@ || trim(out) == "HEAD"@ {
            "detached"@
        } else {
            trim(out)
        },
    }
}

/// The name of the branch being reviewed, from the Gerrit coordinates and
/// from what `git rev-parse --abbrev-ref HEAD` printed.
pub fn branch_name(server: Option<&str>, out: &str) -> (name: String)
    ensures
        name@ == spec_branch_name(match server {
            Some(b) => Some(b@),
            None => None,
        }, out@),
{
    if let Some(b) = server {
        return string_of(chars_of(b).as_slice());
    }
    let t = trim_chars(chars_of(out).as_slice());
    let ts = string_of(t.as_slice());
    if same_str(ts.as_str(), "") || same_str(ts.as_str(), "HEAD") {
        string_of(chars_of("detached").as_slice())
    } else {
        ts
    }
}

/// The subject of the change with the key, or nothing.
pub open spec fn subject_of(cs: Seq<ChangeSummaryView>, key: Seq<char>) -> Seq<char> {
    match first_with_key(cs, key) {
        Some(i) => cs[i].subject,
        None => Seq::empty(),
    }
}

/// Mark the change with the key read, or unread, in the series; the subject
/// it carries comes back for the store, which files the mark with it.
pub fn mark_in_series(changes: &mut Vec<ChangeSummary>, key: &str, reviewed: bool) -> (subject: String)
    ensures
        subject@ == subject_of(summaries_view(old(changes)@), key@),
        summaries_view(final(changes)@) == match first_with_key(summaries_view(old(changes)@), key@) {
            Some(i) => summaries_view(old(changes)@).update(
                i,
                ChangeSummaryView { reviewed, ..summaries_view(old(changes)@)[i] },
            ),
            None => summaries_view(old(changes)@),
        },
{
    let ghost v = summaries_view(changes@);
    match find_change(changes, key) {
        Some(i) => {
            proof {
                lemma_first_with_key_found(v, key@);
            }
            let mut c = changes.remove(i);
            let subject = copy_string(&c.subject);
            c.reviewed = reviewed;
            changes.insert(i, c);
            assert(summaries_view(changes@) =~= v.update(i as int, ChangeSummaryView { reviewed, ..v[i as int] }));
            subject
        },
        None => string_of(Vec::<char>::new().as_slice()),
    }
}

/// Where the patch set with the number stands in the list.
pub open spec fn set_numbered(sets: Seq<PatchSetView>, number: usize) -> Option<int>
    decreases sets.len(),
{
    if sets.len() == 0 {
        None
    } else {
        match set_numbered(sets.drop_last(), number) {
            Some(k) => Some(k),
            None => if sets.last().number == number {
                Some(sets.len() - 1)
            } else {
                None
            },
        }
    }
}

proof fn lemma_set_numbered(s: Seq<PatchSetView>, number: usize, k: int)
    requires
        0 <= k <= s.len(),
        forall|j: int| 0 <= j < k ==> (#[trigger] s[j]).number != number,
        k < s.len() ==> s[k].number == number,
    ensures
        set_numbered(s, number) == (if k < s.len() {
            Some(k)
        } else {
            None::<int>
        }),
    decreases s.len(),
{
    if s.len() > 0 {
        let t = s.drop_last();
        if k < s.len() - 1 {
            assert(t[k] == s[k]);
            assert forall|j: int| 0 <= j < k implies (#[trigger] t[j]).number != number by {
                assert(t[j] == s[j]);
            }
            lemma_set_numbered(t, number, k);
        } else {
            assert forall|j: int| 0 <= j < t.len() implies (#[trigger] t[j]).number != number by {
                assert(t[j] == s[j]);
            }
            lemma_set_numbered(t, number, t.len() as int);
        }
    }
}

/// The patch set of a change with the number a reader named.
pub fn find_set(sets: &Vec<PatchSet>, number: usize) -> (k: Option<usize>)
    ensures
        match k {
            Some(k) => set_numbered(sets_view(sets@), number) == Some(k as int),
            None => set_numbered(sets_view(sets@), number) is None,
        },
        k matches Some(k) ==> k < sets@.len() && sets@[k as int].number == number,
{
    let ghost v = sets_view(sets@);
    let mut i: usize = 0;
    while i < sets.len()
        invariant
            i <= sets@.len(),
            v == sets_view(sets@),
            forall|j: int| 0 <= j < i ==> (#[trigger] v[j]).number != number,
        decreases sets@.len() - i,
    {
        assert(v[i as int] == sets@[i as int]@);
        if sets[i].number == number {
            proof {
                lemma_set_numbered(v, number, i as int);
            }
            return Some(i);
        }
        i = i + 1;
    }
    proof {
        lemma_set_numbered(v, number, v.len() as int);
    }
    None
}

/// The message a failed lookup of a patch set gives.
pub open spec fn no_set(key: Seq<char>, number: usize) -> Seq<char> {
    "change "@ + key + " has no patch set "@ + decimal(number as nat)
}

/// The commit of the patch set with the number, or the message that says
/// the change has none such.
pub fn commit_of_set(sets: &Vec<PatchSet>, key: &str, number: usize) -> (out: Result<String, String>)
    ensures
        match set_numbered(sets_view(sets@), number) {
            Some(i) => out matches Ok(c) && c@ == sets_view(sets@)[i].commit,
            None => out matches Err(e) && e@ == no_set(key@, number),
        },
{
    match find_set(sets, number) {
        Some(i) => {
            assert(sets_view(sets@)[i as int] == sets@[i as int]@);
            Ok(copy_string(&sets[i].commit))
        },
        None => {
            let mut m: Vec<char> = Vec::new();
            extend_str(&mut m, "change ");
            extend_str(&mut m, key);
            extend_str(&mut m, " has no patch set ");
            let d = decimal_of(number);
            extend(&mut m, d.as_slice());
            Err(string_of(m.as_slice()))
        },
    }
}

} // verus!

verus! {

/// The oldest commit the series reaches: its last change, or its head when
/// it has none.
pub open spec fn spec_oldest(cs: Seq<ChangeSummaryView>, head: Seq<char>) -> Seq<char> {
    if cs.len() == 0 { head } else { cs.last().commit }
}

/// The oldest commit the series reaches.
pub fn oldest_of(changes: &Vec<ChangeSummary>, head: &str) -> (out: String)
    ensures
        out@ == spec_oldest(summaries_view(changes@), head@),
{
    if changes.len() == 0 {
        string_of(chars_of(head).as_slice())
    } else {
        let c = &changes[changes.len() - 1];
        assert(summaries_view(changes@).last() == c@);
        copy_string(&c.commit)
    }
}

/// The names not yet among the known ones, in order.
pub open spec fn not_known(ids: Seq<Seq<char>>, known: Seq<Seq<char>>) -> Seq<Seq<char>>
    decreases ids.len(),
{
    if ids.len() == 0 {
        ids
    } else if known.contains(ids.last()) {
        not_known(ids.drop_last(), known)
    } else {
        not_known(ids.drop_last(), known).push(ids.last())
    }
}

/// The changes still worth asking the server about: those with no answer
/// kept for the run. The round trip is the cost, so each is asked once.
pub fn still_wanted(ids: &Vec<String>, known: &Vec<String>) -> (out: Vec<String>)
    ensures
        names_view(out@) == not_known(names_view(ids@), names_view(known@)),
{
    let ghost iv = names_view(ids@);
    let mut out: Vec<String> = Vec::new();
    let mut i: usize = 0;
    while i < ids.len()
        invariant
            0 <= i <= ids@.len(),
            iv == names_view(ids@),
            names_view(out@) == not_known(iv.take(i as int), names_view(known@)),
        decreases ids@.len() - i,
    {
        assert(iv[i as int] == ids@[i as int]@);
        assert(iv.take(i as int + 1).drop_last() == iv.take(i as int));
        assert(iv.take(i as int + 1).last() == iv[i as int]);
        if !holds_name(known, ids[i].as_str()) {
            let ghost prev = out@;
            proof {
                assert(names_view(prev).len() == prev.len());
            }
            out.push(copy_string(&ids[i]));
            proof {
                let want = not_known(iv.take(i as int), names_view(known@)).push(iv[i as int]);
                assert forall|j: int| 0 <= j < out@.len() implies #[trigger] names_view(out@)[j] == want[j] by {
                    if j < prev.len() {
                        assert(out@[j] == prev[j]);
                        assert(names_view(prev)[j] == prev[j]@);
                    }
                }
                assert(names_view(out@) =~= want);
            }
        }
        i = i + 1;
    }
    assert(iv.take(ids@.len() as int) == iv);
    out
}

/// The first change of the answer with the id.
pub open spec fn answer_for(ids: Seq<Seq<char>>, id: Seq<char>) -> Option<int>
    decreases ids.len(),
{
    if ids.len() == 0 {
        None
    } else {
        match answer_for(ids.drop_last(), id) {
            Some(k) => Some(k),
            None => if ids.last() == id { Some(ids.len() - 1) } else { None },
        }
    }
}

/// The ids of the changes of an answer.
pub open spec fn ids_of(found: Seq<Change>) -> Seq<Seq<char>> {
    found.map_values(|c: Change| c.id@)
}

proof fn lemma_answer_for(s: Seq<Seq<char>>, id: Seq<char>, k: int)
    requires
        0 <= k <= s.len(),
        forall|j: int| 0 <= j < k ==> #[trigger] s[j] != id,
        k < s.len() ==> s[k] == id,
    ensures
        answer_for(s, id) == (if k < s.len() { Some(k) } else { None::<int> }),
    decreases s.len(),
{
    if s.len() > 0 {
        let t = s.drop_last();
        if k < s.len() - 1 {
            assert(t[k] == s[k]);
            assert forall|j: int| 0 <= j < k implies #[trigger] t[j] != id by {
                assert(t[j] == s[j]);
            }
            lemma_answer_for(t, id, k);
        } else {
            assert forall|j: int| 0 <= j < t.len() implies #[trigger] t[j] != id by {
                assert(t[j] == s[j]);
            }
            lemma_answer_for(t, id, t.len() as int);
        }
    }
}

/// Where the answer about a change stands among the changes the server
/// named: the server leaves out a change it never heard of, and that is an
/// answer too, kept as none so nothing asks a second time.
pub fn answer_about(found: &Vec<Change>, id: &str) -> (k: Option<usize>)
    ensures
        match k {
            Some(k) => answer_for(ids_of(found@), id@) == Some(k as int) && k < found@.len(),
            None => answer_for(ids_of(found@), id@) is None,
        },
{
    let ghost v = ids_of(found@);
    let mut i: usize = 0;
    while i < found.len()
        invariant
            i <= found@.len(),
            v == ids_of(found@),
            forall|j: int| 0 <= j < i ==> #[trigger] v[j] != id@,
        decreases found@.len() - i,
    {
        assert(v[i as int] == found@[i as int].id@);
        if same_str(found[i].id.as_str(), id) {
            proof {
                lemma_answer_for(v, id@, i as int);
            }
            return Some(i);
        }
        i = i + 1;
    }
    proof {
        lemma_answer_for(v, id@, v.len() as int);
    }
    None
}

/// What a run records after it asked the server about some changes, for
/// each change asked about: `Some` of where its answer stands among the
/// changes the server named, or `None` when the server never heard of it.
/// A refusal records nothing: the server may still answer about one change
/// at a time, so the reader who opens a change asks again. When nothing
/// answered, every change asked about is recorded as having no answer:
/// asking once per change would only make the reader wait once per change.
pub fn recorded(wanted: &Vec<String>, outcome: &Result<Vec<Change>, crate::gerrit::Failed>) -> (out: Option<Vec<(String, Option<usize>)>>)
    ensures
        match outcome {
            Err(crate::gerrit::Failed::Refused(_)) => out is None,
            Err(crate::gerrit::Failed::Unreachable(_)) => out matches Some(v) && v@.len() == wanted@.len()
                && forall|i: int| 0 <= i < v@.len() ==> (#[trigger] v@[i]).0@ == wanted@[i]@ && v@[i].1 is None,
            Ok(found) => out matches Some(v) && v@.len() == wanted@.len() && forall|i: int|
                0 <= i < v@.len() ==> (#[trigger] v@[i]).0@ == wanted@[i]@ && match v@[i].1 {
                    Some(k) => answer_for(ids_of(found@), wanted@[i]@) == Some(k as int),
                    None => answer_for(ids_of(found@), wanted@[i]@) is None,
                },
        },
{
    match outcome {
        Err(crate::gerrit::Failed::Refused(_)) => None,
        Err(crate::gerrit::Failed::Unreachable(_)) => {
            let mut v: Vec<(String, Option<usize>)> = Vec::new();
            let mut i: usize = 0;
            while i < wanted.len()
                invariant
                    i <= wanted@.len(),
                    v@.len() == i,
                    forall|j: int| 0 <= j < i ==> (#[trigger] v@[j]).0@ == wanted@[j]@ && v@[j].1 is None,
                decreases wanted@.len() - i,
            {
                v.push((copy_string(&wanted[i]), None));
                i = i + 1;
            }
            Some(v)
        },
        Ok(found) => {
            let mut v: Vec<(String, Option<usize>)> = Vec::new();
            let mut i: usize = 0;
            while i < wanted.len()
                invariant
                    i <= wanted@.len(),
                    v@.len() == i,
                    forall|j: int| 0 <= j < i ==> (#[trigger] v@[j]).0@ == wanted@[j]@ && match v@[j].1 {
                        Some(k) => answer_for(ids_of(found@), wanted@[j]@) == Some(k as int),
                        None => answer_for(ids_of(found@), wanted@[j]@) is None,
                    },
                decreases wanted@.len() - i,
            {
                let k = answer_about(found, wanted[i].as_str());
                v.push((copy_string(&wanted[i]), k));
                i = i + 1;
            }
            Some(v)
        },
    }
}

/// A version of a change, the date it was written first.
pub open spec fn dated_view(v: Seq<(String, String, String)>) -> Seq<(Seq<char>, Seq<char>, Seq<char>)> {
    v.map_values(|p: (String, String, String)| (p.0@, p.1@, p.2@))
}

/// A version put before the first one written before it.
pub open spec fn insert_newest(
    s: Seq<(Seq<char>, Seq<char>, Seq<char>)>,
    e: (Seq<char>, Seq<char>, Seq<char>),
) -> Seq<(Seq<char>, Seq<char>, Seq<char>)>
    decreases s.len(),
{
    if s.len() == 0 {
        seq![e]
    } else if text_lt(s[0].0, e.0) {
        seq![e] + s
    } else {
        seq![s[0]] + insert_newest(s.drop_first(), e)
    }
}

/// The versions newest first, those of one date in the order they came.
pub open spec fn newest_first_spec(s: Seq<(Seq<char>, Seq<char>, Seq<char>)>) -> Seq<(Seq<char>, Seq<char>, Seq<char>)>
    decreases s.len(),
{
    if s.len() == 0 {
        s
    } else {
        insert_newest(newest_first_spec(s.drop_last()), s.last())
    }
}

proof fn lemma_insert_newest_at(
    s: Seq<(Seq<char>, Seq<char>, Seq<char>)>,
    e: (Seq<char>, Seq<char>, Seq<char>),
    k: int,
)
    requires
        0 <= k <= s.len(),
        forall|j: int| 0 <= j < k ==> !text_lt((#[trigger] s[j]).0, e.0),
        k < s.len() ==> text_lt(s[k].0, e.0),
    ensures
        insert_newest(s, e) == s.insert(k, e),
    decreases s.len(),
{
    if s.len() == 0 {
        assert(s.insert(k, e) =~= seq![e]);
    } else if k == 0 {
        assert(s.insert(0, e) =~= seq![e] + s);
    } else {
        let t = s.drop_first();
        assert forall|j: int| 0 <= j < k - 1 implies !text_lt((#[trigger] t[j]).0, e.0) by {
            assert(t[j] == s[j + 1]);
        }
        if k < s.len() {
            assert(t[k - 1] == s[k]);
        }
        lemma_insert_newest_at(t, e, k - 1);
        assert(seq![s[0]] + t.insert(k - 1, e) =~= s.insert(k, e));
    }
}

/// The versions a change was reviewed on, each with its date, commit and
/// subject, put newest first: the round just before this one is the one a
/// reader is answering, and the older ones sink under it.
pub fn newest_first(found: Vec<(String, String, String)>) -> (out: Vec<(String, String, String)>)
    ensures
        dated_view(out@) == newest_first_spec(dated_view(found@)),
{
    let ghost fv = dated_view(found@);
    let mut out: Vec<(String, String, String)> = Vec::new();
    let mut i: usize = 0;
    while i < found.len()
        invariant
            0 <= i <= found@.len(),
            fv == dated_view(found@),
            dated_view(out@) == newest_first_spec(fv.take(i as int)),
        decreases found@.len() - i,
    {
        let e = (copy_string(&found[i].0), copy_string(&found[i].1), copy_string(&found[i].2));
        let ghost ev = fv[i as int];
        assert(ev == (e.0@, e.1@, e.2@));
        assert(fv.take(i as int + 1).drop_last() == fv.take(i as int));
        assert(fv.take(i as int + 1).last() == ev);
        let ghost have = dated_view(out@);
        let mut k: usize = 0;
        while k < out.len() && !text_before(out[k].0.as_str(), e.0.as_str())
            invariant
                0 <= k <= out@.len(),
                have == dated_view(out@),
                ev.0 == e.0@,
                forall|j: int| 0 <= j < k ==> !text_lt((#[trigger] have[j]).0, e.0@),
            decreases out@.len() - k,
        {
            assert(have[k as int] == (out@[k as int].0@, out@[k as int].1@, out@[k as int].2@));
            k = k + 1;
        }
        proof {
            if k < out@.len() {
                assert(have[k as int] == (out@[k as int].0@, out@[k as int].1@, out@[k as int].2@));
            }
            lemma_insert_newest_at(have, ev, k as int);
        }
        out.insert(k, e);
        assert(dated_view(out@) =~= have.insert(k as int, ev));
        i = i + 1;
    }
    assert(fv.take(found@.len() as int) == fv);
    out
}

} // verus!
