//! Finding a comment again in another patch set.
//!
//! A comment is written against one version of a change. The reader who opens
//! another version must still see it. Three branches, in order: the file did
//! not change, the line moved, or the place is gone. A comment is never
//! dropped and never moved in silence.
//!
//! How much of the stored context matches is counted in lines: a candidate
//! holds at least half of the context, and among candidates the one that
//! holds more wins.

use vstd::prelude::*;
use crate::comments::{hash_line, spec_hash_line, strs_view, CONTEXT};
use crate::git::commit::strings_view;
use crate::store::model::{Anchor, Comment, Scope, Side};
use crate::text::{chars_of, copy_string, lines, lines_of, same, same_str, string_of, trim_end, trim_end_chars};

verus! {

/// Where a comment lands in the patch set being read.
#[derive(Clone, Debug, PartialEq, Eq)]
pub struct Placed {
    pub id: String,
    /// The line it lands on, absent when nothing was found.
    pub line: Option<usize>,
    /// The last line of the range, which follows the first one.
    pub end_line: Option<usize>,
    /// True when the line is not the one the comment was written against.
    pub moved: bool,
    /// True when the place is gone. The remark then stands at the top of
    /// the file it was written on, never on a line nobody chose.
    pub lost: bool,
}

/// A comment that belongs to no line of this patch set, and is not lost:
/// one about the change, or about the file.
pub fn nowhere(id: String) -> (p: Placed)
    ensures
        p == (Placed { id, line: None, end_line: None, moved: false, lost: false }),
{
    Placed { id, line: None, end_line: None, moved: false, lost: false }
}

/// A comment whose place this patch set no longer has.
pub fn gone(id: String) -> (p: Placed)
    ensures
        p == (Placed { id, line: None, end_line: None, moved: false, lost: true }),
{
    Placed { id, line: None, end_line: None, moved: false, lost: true }
}

/// A comment found on `line`, its range keeping its length.
pub fn found(id: String, line: usize, span: usize, moved: bool) -> (p: Placed)
    requires
        line + span <= usize::MAX,
    ensures
        p == (Placed {
            id,
            line: Some(line),
            end_line: Some((line + span) as usize),
            moved,
            lost: false,
        }),
{
    Placed { id, line: Some(line), end_line: Some(line + span), moved, lost: false }
}

/// How far apart two lines are.
pub open spec fn spec_distance(a: usize, b: usize) -> nat {
    if a >= b {
        (a - b) as nat
    } else {
        (b - a) as nat
    }
}

/// How far apart two lines are.
pub fn distance(a: usize, b: usize) -> (d: usize)
    ensures
        d == spec_distance(a, b),
{
    if a >= b {
        a - b
    } else {
        b - a
    }
}

/// The line of `fresh` that stands at `offset` in a context whose anchored
/// line is `at` and which kept `above` lines above it, when the file has it.
pub open spec fn context_index(at: int, above: int, offset: int, len: int) -> Option<int> {
    let index = at + offset - above - 1;
    if 0 <= index < len {
        Some(index)
    } else {
        None
    }
}

/// How many lines of the stored context are still around the candidate
/// line `at`, trailing space aside.
///
/// `above` is how many of the stored lines sat above the anchored one. It is
/// not always half of them: a line near the top of a file has fewer lines
/// above it than the context asks for.
pub open spec fn spec_matched(context: Seq<Seq<char>>, fresh: Seq<Seq<char>>, at: int, above: int) -> nat
    decreases context.len(),
{
    if context.len() == 0 {
        0
    } else {
        let k = context.len() - 1;
        spec_matched(context.drop_last(), fresh, at, above) + match context_index(at, above, k, fresh.len() as int) {
            Some(i) => if trim_end(fresh[i]) == trim_end(context[k]) {
                1nat
            } else {
                0nat
            },
            None => 0nat,
        }
    }
}

/// Where the stored line at `offset` sits in the file, when it has it.
fn index_of(at: usize, above: usize, offset: usize, len: usize) -> (out: Option<usize>)
    ensures
        match out {
            Some(i) => context_index(at as int, above as int, offset as int, len as int) == Some(i as int),
            None => context_index(at as int, above as int, offset as int, len as int) is None,
        },
{
    if at > above {
        let base = at - above - 1;
        if base < len && offset < len - base {
            Some(base + offset)
        } else {
            None
        }
    } else {
        let need = above - at;
        if offset > need {
            let index = offset - need - 1;
            if index < len {
                Some(index)
            } else {
                None
            }
        } else {
            None
        }
    }
}

/// How many lines of the stored context are still around the candidate
/// line `at`.
pub fn matched(context: &[String], fresh: &[&str], at: usize, above: usize) -> (n: usize)
    ensures
        n == spec_matched(strings_view(context@), strs_view(fresh@), at as int, above as int),
        n <= context@.len(),
{
    let ghost cv = strings_view(context@);
    let ghost fv = strs_view(fresh@);
    let mut n: usize = 0;
    let mut k: usize = 0;
    while k < context.len()
        invariant
            k <= context@.len(),
            cv == strings_view(context@),
            fv == strs_view(fresh@),
            n <= k,
            n == spec_matched(cv.subrange(0, k as int), fv, at as int, above as int),
        decreases context@.len() - k,
    {
        let ghost sub = cv.subrange(0, k + 1);
        assert(sub.drop_last() == cv.subrange(0, k as int));
        assert(sub[k as int] == context@[k as int]@);
        match index_of(at, above, k, fresh.len()) {
            Some(i) => {
                assert(fv[i as int] == fresh@[i as int]@);
                let a = trim_end_chars(chars_of(fresh[i]).as_slice());
                let b = trim_end_chars(chars_of(context[k].as_str()).as_slice());
                if same(a.as_slice(), b.as_slice()) {
                    n = n + 1;
                }
            },
            None => {},
        }
        k = k + 1;
    }
    assert(cv.subrange(0, cv.len() as int) == cv);
    n
}

/// A candidate holds enough of the context to be more than a coincidence:
/// at least half of it, or there was no context to hold.
pub open spec fn passes(matched: nat, len: nat) -> bool {
    len == 0 || 2 * matched >= len
}

/// The candidate `at` with `score` beats the best so far: a higher score, or
/// the same one nearer the line the comment was written on.
pub open spec fn beats(score: nat, at: usize, best: Option<(nat, usize)>, was_at: usize) -> bool {
    match best {
        None => true,
        Some((top, top_at)) => score > top || (score == top && spec_distance(at, was_at)
            < spec_distance(top_at, was_at)),
    }
}

/// How many of the stored lines sat above the anchored one: as many as the
/// store keeps, or fewer near the top of the file.
pub open spec fn lines_above(was_at: usize) -> usize {
    let up = if was_at >= 1 { (was_at - 1) as usize } else { 0 };
    if up <= CONTEXT { up } else { CONTEXT }
}

/// The best candidate among the first `upto` lines of `fresh`: its score
/// and its line.
pub open spec fn best_in(
    hash: Seq<char>,
    context: Seq<Seq<char>>,
    fresh: Seq<Seq<char>>,
    was_at: usize,
    upto: int,
) -> Option<(nat, usize)>
    decreases upto,
{
    if upto <= 0 {
        None
    } else {
        let best = best_in(hash, context, fresh, was_at, upto - 1);
        let i = upto - 1;
        if spec_hash_line(fresh[i]) != hash {
            best
        } else {
            let at = (i + 1) as usize;
            let score = spec_matched(context, fresh, at as int, lines_above(was_at) as int);
            if beats(score, at, best, was_at) {
                Some((score, at))
            } else {
                best
            }
        }
    }
}

/// The line of `fresh` that best matches the stored anchor, when one holds
/// enough of the context.
pub open spec fn spec_best_match(hash: Seq<char>, context: Seq<Seq<char>>, fresh: Seq<Seq<char>>, was_at: usize) -> Option<usize> {
    match best_in(hash, context, fresh, was_at, fresh.len() as int) {
        Some((score, at)) => if passes(score, context.len()) {
            Some(at)
        } else {
            None
        },
        None => None,
    }
}

/// The line of `fresh` that best matches the stored anchor.
///
/// A candidate is a line with the same hash. The context around it decides
/// between two candidates, and the one nearest the old position breaks a tie.
pub fn best_match(hash: &str, context: &[String], fresh: &[&str], was_at: usize) -> (out: Option<usize>)
    ensures
        out == spec_best_match(hash@, strings_view(context@), strs_view(fresh@), was_at),
{
    let ghost cv = strings_view(context@);
    let ghost fv = strs_view(fresh@);
    let up = if was_at >= 1 { was_at - 1 } else { 0 };
    let above = if up <= CONTEXT { up } else { CONTEXT };
    let mut best: Option<(usize, usize)> = None;
    let mut i: usize = 0;
    while i < fresh.len()
        invariant
            i <= fresh@.len(),
            cv == strings_view(context@),
            fv == strs_view(fresh@),
            above == lines_above(was_at),
            best matches Some((s, _)) ==> s <= context@.len(),
            match best {
                Some((s, a)) => best_in(hash@, cv, fv, was_at, i as int) == Some((s as nat, a)),
                None => best_in(hash@, cv, fv, was_at, i as int) is None,
            },
        decreases fresh@.len() - i,
    {
        assert(fv[i as int] == fresh@[i as int]@);
        let h = hash_line(fresh[i]);
        if same_str(h.as_str(), hash) {
            let at = i + 1;
            let score = matched(context, fresh, at, above);
            let better = match best {
                None => true,
                Some((top, top_at)) => score > top || (score == top && distance(at, was_at) < distance(top_at, was_at)),
            };
            if better {
                best = Some((score, at));
            }
        }
        i = i + 1;
    }
    match best {
        Some((score, at)) => {
            if context.len() == 0 || score >= context.len() - score {
                Some(at)
            } else {
                None
            }
        },
        None => None,
    }
}

/// The best candidate has the anchored line's hash, is the best scored,
/// and no candidate with its score is nearer the old place.
pub open spec fn is_best(hash: Seq<char>, context: Seq<Seq<char>>, fresh: Seq<Seq<char>>, was_at: usize, upto: int, s: nat, at: usize) -> bool {
    &&& 1 <= at <= upto
    &&& spec_hash_line(fresh[at - 1]) == hash
    &&& s == spec_matched(context, fresh, at as int, lines_above(was_at) as int)
    &&& forall|j: int|
        0 <= j < upto && spec_hash_line(#[trigger] fresh[j]) == hash ==> spec_matched(
            context,
            fresh,
            j + 1,
            lines_above(was_at) as int,
        ) < s || (spec_matched(context, fresh, j + 1, lines_above(was_at) as int) == s
            && spec_distance(at, was_at) <= spec_distance((j + 1) as usize, was_at))
}

proof fn lemma_best_in(hash: Seq<char>, context: Seq<Seq<char>>, fresh: Seq<Seq<char>>, was_at: usize, upto: int)
    requires
        0 <= upto <= fresh.len(),
        fresh.len() < usize::MAX,
    ensures
        match best_in(hash, context, fresh, was_at, upto) {
            Some((s, at)) => is_best(hash, context, fresh, was_at, upto, s, at),
            None => forall|j: int| 0 <= j < upto ==> spec_hash_line(#[trigger] fresh[j]) != hash,
        },
    decreases upto,
{
    if upto > 0 {
        lemma_best_in(hash, context, fresh, was_at, upto - 1);
    }
}

/// A line that is gone is not invented: the line found has the hash of the
/// anchored one, holds enough of the context, scores best among the lines
/// with that hash, and no line with its score is nearer the old place. When
/// nothing is found, no line with the hash holds enough of the context to
/// be the best.
pub proof fn law_the_best_candidate_wins(hash: Seq<char>, context: Seq<Seq<char>>, fresh: Seq<Seq<char>>, was_at: usize)
    requires
        fresh.len() < usize::MAX,
    ensures
        spec_best_match(hash, context, fresh, was_at) matches Some(at) ==> {
            let s = spec_matched(context, fresh, at as int, lines_above(was_at) as int);
            &&& is_best(hash, context, fresh, was_at, fresh.len() as int, s, at)
            &&& passes(s, context.len())
        },
        spec_best_match(hash, context, fresh, was_at) is None ==> (forall|j: int|
            0 <= j < fresh.len() ==> spec_hash_line(#[trigger] fresh[j]) != hash) || (best_in(
            hash,
            context,
            fresh,
            was_at,
            fresh.len() as int,
        ) matches Some((s, _)) && !passes(s, context.len())),
{
    lemma_best_in(hash, context, fresh, was_at, fresh.len() as int);
}

/// A comment whose line is still there with at least half of its stored
/// context around it is placed, not lost: when some line of the new text
/// has the anchored line's hash and at least half of the stored context
/// lines stand around it, a line is found, and it too has the hash and at
/// least half of the context around it.
pub proof fn law_half_the_context_keeps_the_comment(
    hash: Seq<char>,
    context: Seq<Seq<char>>,
    fresh: Seq<Seq<char>>,
    was_at: usize,
    j: int,
)
    requires
        fresh.len() < usize::MAX,
        0 <= j < fresh.len(),
        spec_hash_line(fresh[j]) == hash,
        2 * spec_matched(context, fresh, j + 1, lines_above(was_at) as int) >= context.len(),
    ensures
        spec_best_match(hash, context, fresh, was_at) matches Some(at) && 1 <= at <= fresh.len()
            && spec_hash_line(fresh[at - 1]) == hash && 2 * spec_matched(
            context,
            fresh,
            at as int,
            lines_above(was_at) as int,
        ) >= context.len(),
{
    lemma_best_in(hash, context, fresh, was_at, fresh.len() as int);
    assert(spec_hash_line(fresh[j]) == hash);
}

/// A placed comment always keeps at least half of its stored context: the
/// line found has the anchored line's hash, and at least half of the stored
/// context lines stand around it.
pub proof fn law_a_placed_comment_keeps_half_its_context(
    hash: Seq<char>,
    context: Seq<Seq<char>>,
    fresh: Seq<Seq<char>>,
    was_at: usize,
)
    requires
        fresh.len() < usize::MAX,
    ensures
        spec_best_match(hash, context, fresh, was_at) matches Some(at) ==> 1 <= at <= fresh.len()
            && spec_hash_line(fresh[at - 1]) == hash && 2 * spec_matched(
            context,
            fresh,
            at as int,
            lines_above(was_at) as int,
        ) >= context.len(),
{
    lemma_best_in(hash, context, fresh, was_at, fresh.len() as int);
}

/// How many lines a range covers past its first one.
pub open spec fn span_of(a: Anchor) -> usize {
    let line = a.start_line->0;
    let end = match a.end_line {
        Some(e) => e,
        None => line,
    };
    if end >= line {
        (end - line) as usize
    } else {
        0
    }
}

/// What locating a comment needs read next.
pub enum Step {
    /// Nothing: here is where the comment lands.
    Done(Placed),
    /// The commit message of this tree, for `after_text`.
    Message(String),
    /// The blob of this path in this tree, for `after_blob`.
    Blob(String, String),
}

/// The tree a comment is read in: a comment on a removed line speaks of the
/// version before the change, so it is anchored on the base.
pub open spec fn tree_of(a: Anchor, rev: Seq<char>, base: Seq<char>) -> Seq<char> {
    match a.side {
        Side::New => rev,
        Side::Old => base,
    }
}

/// The comment is about the change or a file: it belongs to no line.
pub open spec fn on_no_line(c: Comment) -> bool {
    c.anchor is None || c.scope == Scope::File || c.anchor->0.start_line is None
}

/// Where to start locating a comment in the patch set `rev`, read against
/// `base`.
///
/// A comment about the change or a file belongs to no line and cannot be
/// lost. The commit message is read from the commit, any other file by its
/// blob.
pub fn first_step(comment: &Comment, rev: &str, base: &str) -> (s: Step)
    ensures
        on_no_line(*comment) ==> (s matches Step::Done(p) && p.id@ == comment.id@ && p.line is None
            && !p.lost && !p.moved && p.end_line is None),
        !on_no_line(*comment) && comment.anchor->0.file@ == crate::commitmsg::PATH@ ==> (s matches Step::Message(t)
            && t@ == tree_of(comment.anchor->0, rev@, base@)),
        !on_no_line(*comment) && comment.anchor->0.file@ != crate::commitmsg::PATH@ ==> (s matches Step::Blob(t, p)
            && t@ == tree_of(comment.anchor->0, rev@, base@) && p@ == comment.anchor->0.file@),
{
    let a = match &comment.anchor {
        None => return Step::Done(nowhere(copy_string(&comment.id))),
        Some(a) => a,
    };
    if comment.scope == Scope::File || a.start_line.is_none() {
        return Step::Done(nowhere(copy_string(&comment.id)));
    }
    let tree = match a.side {
        Side::New => rev.to_owned(),
        Side::Old => base.to_owned(),
    };
    if crate::commitmsg::is(a.file.as_str()) {
        Step::Message(tree)
    } else {
        Step::Blob(tree, copy_string(&a.file))
    }
}

/// The anchor of a comment that sits on a line.
pub open spec fn on_a_line(c: Comment) -> bool {
    c.anchor is Some && c.scope != Scope::File && c.anchor->0.start_line is Some
}

/// The file did not change at all when its blob is the one the comment was
/// written against: the comment stands where it was.
pub fn same_file(comment: &Comment, blob: &Option<String>) -> (out: Option<Placed>)
    requires
        on_a_line(*comment),
    ensures
        match out {
            Some(p) => blob is Some && comment.anchor->0.blob is Some && blob->0@ == comment.anchor->0.blob->0@
                && p.id@ == comment.id@ && p.line == comment.anchor->0.start_line
                && p.end_line == Some((comment.anchor->0.start_line->0 + span_of(comment.anchor->0)) as usize)
                && !p.moved && !p.lost,
            None => !(blob is Some && comment.anchor->0.blob is Some && blob->0@ == comment.anchor->0.blob->0@),
        },
{
    let a = comment.anchor.as_ref().unwrap();
    let line = a.start_line.unwrap();
    let same_blob = match (blob, &a.blob) {
        (Some(b), Some(stored)) => same_str(b.as_str(), stored.as_str()),
        _ => false,
    };
    if !same_blob {
        return None;
    }
    let end = match a.end_line {
        Some(e) => e,
        None => line,
    };
    let span = if end >= line { end - line } else { 0 };
    Some(found(copy_string(&comment.id), line, span, false))
}

/// Where a comment on a line lands once the text it was written in has been
/// read again: lost when there is no text or no hash to look for, else on
/// the best match, moved when that is not the line it was written on.
pub open spec fn spec_after_text(comment: Comment, text: Option<Seq<char>>) -> (Option<usize>, bool) {
    let a = comment.anchor->0;
    match text {
        None => (None, true),
        Some(t) => match a.line_hash {
            None => (None, true),
            Some(h) => match spec_best_match(h@, strings_view(a.context@), lines(t), a.start_line->0) {
                Some(at) => (Some(at), false),
                None => (None, true),
            },
        },
    }
}

/// Place a comment on a line once its text is read again.
pub fn after_text(comment: &Comment, text: Option<String>) -> (p: Placed)
    requires
        on_a_line(*comment),
        text matches Some(t) ==> span_of(comment.anchor->0) + lines(t@).len() < usize::MAX,
    ensures
        p.id@ == comment.id@,
        (p.line, p.lost) == spec_after_text(*comment, crate::model::opt_view(text)),
        p.line matches Some(at) ==> p.end_line == Some((at + span_of(comment.anchor->0)) as usize)
            && p.moved == (at != comment.anchor->0.start_line->0),
        p.line is None ==> p.end_line is None && !p.moved,
{
    let a = comment.anchor.as_ref().unwrap();
    let line = a.start_line.unwrap();
    let id = copy_string(&comment.id);
    let t = match text {
        None => return gone(id),
        Some(t) => t,
    };
    let hash = match &a.line_hash {
        None => return gone(id),
        Some(h) => h,
    };
    let v = chars_of(t.as_str());
    let ls = lines_of(v.as_slice());
    let ghost lv = lines(t@);
    let mut strs: Vec<String> = Vec::new();
    let mut i: usize = 0;
    while i < ls.len()
        invariant
            i <= ls@.len(),
            ls@.len() == lv.len(),
            forall|k: int| 0 <= k < ls@.len() ==> #[trigger] ls@[k]@ == lv[k],
            strings_view(strs@) == lv.subrange(0, i as int),
        decreases ls@.len() - i,
    {
        let ghost before = strings_view(strs@);
        strs.push(string_of(ls[i].as_slice()));
        assert(strings_view(strs@) =~= before.push(lv[i as int]));
        assert(lv.subrange(0, i + 1) =~= lv.subrange(0, i as int).push(lv[i as int]));
        i = i + 1;
    }
    assert(lv.subrange(0, lv.len() as int) == lv);
    let mut fresh: Vec<&str> = Vec::new();
    let mut j: usize = 0;
    while j < strs.len()
        invariant
            j <= strs@.len(),
            strs_view(fresh@) == strings_view(strs@).subrange(0, j as int),
        decreases strs@.len() - j,
    {
        let ghost before = strs_view(fresh@);
        fresh.push(strs[j].as_str());
        assert(strs_view(fresh@) =~= before.push(strs@[j as int]@));
        assert(strings_view(strs@).subrange(0, j + 1) =~= strings_view(strs@).subrange(0, j as int).push(strs@[j as int]@));
        j = j + 1;
    }
    assert(strings_view(strs@).subrange(0, strs@.len() as int) == strings_view(strs@));
    let end = match a.end_line {
        Some(e) => e,
        None => line,
    };
    let span = if end >= line { end - line } else { 0 };
    match best_match(hash.as_str(), a.context.as_slice(), fresh.as_slice(), line) {
        Some(at) => {
            proof {
                lemma_best_in(hash@, strings_view(a.context@), lv, line, lv.len() as int);
            }
            found(id, at, span, at != line)
        },
        None => gone(id),
    }
}

} // verus!
