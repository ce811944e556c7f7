//! What changed inside a line.
//!
//! A row that differs from its opposite by one word reads much better when
//! only that word is marked. The words are diffed by the `similar` crate;
//! what is done with its answer is verified here.

use vstd::prelude::*;
use vstd::utf8::{encode_scalar, encode_utf8};
use crate::model::{rows_view, Hunk, Row, RowKind, RowView, WordSpan};
use crate::text::same_str;

verus! {

/// One piece of a diff: kept, only on the old side, or only on the new one.
#[derive(Clone, Copy, Debug, PartialEq, Eq, Structural)]
pub enum Tag {
    Equal,
    Delete,
    Insert,
}

/// One piece of a word diff, with its text.
pub struct Piece {
    pub tag: Tag,
    pub value: String,
}

/// The pieces as the contracts read them.
pub open spec fn pieces_view(p: Seq<Piece>) -> Seq<(Tag, Seq<char>)> {
    p.map_values(|x: Piece| (x.tag, x.value@))
}

/// What `similar` answers for a diff of two lines split into Unicode words
/// (`TextDiff::from_unicode_words(old, new).iter_all_changes()`).
pub uninterp spec fn word_diff(old: Seq<char>, new: Seq<char>) -> Seq<(Tag, Seq<char>)>;

/// The text a run of pieces leaves on one side: the kept pieces and the
/// pieces of that side, in order.
pub open spec fn side(pieces: Seq<(Tag, Seq<char>)>, other: Tag) -> Seq<char>
    decreases pieces.len(),
{
    if pieces.len() == 0 {
        Seq::empty()
    } else {
        let rest = side(pieces.drop_last(), other);
        if pieces.last().0 == other {
            rest
        } else {
            rest + pieces.last().1
        }
    }
}

/// The pieces of the diff of two lines of text, split into Unicode words.
///
/// Calls `similar::TextDiff::from_unicode_words` and walks
/// `iter_all_changes`. The contract names the answer `word_diff` and states
/// what a diff is: the kept and deleted pieces spell the old line, and the
/// kept and inserted pieces spell the new one (the words are the segments
/// of `split_word_bounds`, which cover the whole line, and none of which is
/// empty: each change is one of them). It does not say which of the
/// possible diffs the algorithm picks.
#[verifier::external_body]
fn word_changes(old: &str, new: &str) -> (out: Vec<Piece>)
    ensures
        pieces_view(out@) == word_diff(old@, new@),
        forall|k: int| 0 <= k < out@.len() ==> (#[trigger] out@[k]).value@.len() > 0,
        side(pieces_view(out@), Tag::Insert) == old@,
        side(pieces_view(out@), Tag::Delete) == new@,
{
    similar::TextDiff::from_unicode_words(old, new)
        .iter_all_changes()
        .map(|c| Piece {
            tag: match c.tag() {
                similar::ChangeTag::Equal => Tag::Equal,
                similar::ChangeTag::Delete => Tag::Delete,
                similar::ChangeTag::Insert => Tag::Insert,
            },
            value: c.value().to_owned(),
        })
        .collect()
}

/// The length in bytes of a text, as UTF-8 writes it.
pub open spec fn blen(s: Seq<char>) -> nat {
    encode_utf8(s).len()
}

/// The length in bytes of a text held in memory, which therefore fits a
/// `usize`.
pub fn byte_len(s: &str) -> (n: usize)
    ensures
        n == blen(s@),
{
    s.as_bytes().len()
}

/// What a walk over the pieces has counted so far.
pub struct Walk {
    /// Bytes read on the old side.
    pub o: nat,
    /// Bytes read on the new side.
    pub n: nat,
    /// Bytes both sides share.
    pub shared: nat,
    pub olds: Seq<WordSpan>,
    pub news: Seq<WordSpan>,
}

/// The byte ranges that differ on each side, and how much is shared.
pub open spec fn walk(pieces: Seq<(Tag, Seq<char>)>) -> Walk
    decreases pieces.len(),
{
    if pieces.len() == 0 {
        Walk { o: 0, n: 0, shared: 0, olds: Seq::empty(), news: Seq::empty() }
    } else {
        let w = walk(pieces.drop_last());
        let len = blen(pieces.last().1);
        match pieces.last().0 {
            Tag::Equal => Walk { o: w.o + len, n: w.n + len, shared: w.shared + len, ..w },
            Tag::Delete => Walk {
                o: w.o + len,
                olds: w.olds.push(WordSpan { start: w.o as usize, end: (w.o + len) as usize }),
                ..w
            },
            Tag::Insert => Walk {
                n: w.n + len,
                news: w.news.push(WordSpan { start: w.n as usize, end: (w.n + len) as usize }),
                ..w
            },
        }
    }
}

/// Spans that touch merged into one.
pub open spec fn spec_join(spans: Seq<WordSpan>) -> Seq<WordSpan>
    decreases spans.len(),
{
    if spans.len() == 0 {
        Seq::empty()
    } else {
        let prev = spec_join(spans.drop_last());
        let s = spans.last();
        if prev.len() > 0 && prev.last().end == s.start {
            prev.update(prev.len() - 1, WordSpan { start: prev.last().start, end: s.end })
        } else {
            prev.push(s)
        }
    }
}

/// The marks of two lines, given the pieces of their diff.
///
/// Below a quarter of shared text, the two lines are not versions of each
/// other, and marking every word is noise: both stay plain.
pub open spec fn spec_marks(
    old: Seq<char>,
    new: Seq<char>,
    pieces: Seq<(Tag, Seq<char>)>,
) -> (Seq<WordSpan>, Seq<WordSpan>) {
    if old == new {
        (Seq::empty(), Seq::empty())
    } else {
        let w = walk(pieces);
        let longest = if blen(old) >= blen(new) { blen(old) } else { blen(new) };
        let longest = if longest == 0 { 1 } else { longest };
        if w.shared * 4 < longest {
            (Seq::empty(), Seq::empty())
        } else {
            (spec_join(w.olds), spec_join(w.news))
        }
    }
}

/// The marks of two lines.
pub open spec fn spec_compare(old: Seq<char>, new: Seq<char>) -> (Seq<WordSpan>, Seq<WordSpan>) {
    spec_marks(old, new, word_diff(old, new))
}

/// The byte length of a concatenation is the sum of the byte lengths.
pub proof fn lemma_blen_concat(a: Seq<char>, b: Seq<char>)
    ensures
        blen(a + b) == blen(a) + blen(b),
    decreases a.len(),
{
    if a.len() > 0 {
        lemma_blen_concat(a.drop_first(), b);
        assert((a + b).drop_first() == a.drop_first() + b);
        assert((a + b)[0] == a[0]);
    } else {
        assert(a + b == b);
    }
}

/// Each side of a run of pieces is at most as long as the side of the whole.
proof fn lemma_side_prefix(pieces: Seq<(Tag, Seq<char>)>, k: int, t: Tag)
    requires
        0 <= k <= pieces.len(),
    ensures
        blen(side(pieces.subrange(0, k), t)) <= blen(side(pieces, t)),
    decreases pieces.len() - k,
{
    if k < pieces.len() {
        lemma_side_prefix(pieces, k + 1, t);
        let p = pieces.subrange(0, k + 1);
        assert(p.drop_last() == pieces.subrange(0, k));
        lemma_blen_concat(side(pieces.subrange(0, k), t), p.last().1);
    } else {
        assert(pieces.subrange(0, k) == pieces);
    }
}

/// The walk reads exactly the bytes of each side, and every span it marks
/// lies inside the side it marks.
pub proof fn lemma_walk_bytes(pieces: Seq<(Tag, Seq<char>)>)
    requires
        blen(side(pieces, Tag::Insert)) <= usize::MAX,
        blen(side(pieces, Tag::Delete)) <= usize::MAX,
    ensures
        walk(pieces).o == blen(side(pieces, Tag::Insert)),
        walk(pieces).n == blen(side(pieces, Tag::Delete)),
        walk(pieces).shared <= walk(pieces).o,
        spans_within(walk(pieces).olds, walk(pieces).o),
        spans_within(walk(pieces).news, walk(pieces).n),
        ordered(walk(pieces).olds),
        ordered(walk(pieces).news),
    decreases pieces.len(),
{
    if pieces.len() > 0 {
        let last = pieces.last();
        lemma_blen_concat(side(pieces.drop_last(), Tag::Insert), last.1);
        lemma_blen_concat(side(pieces.drop_last(), Tag::Delete), last.1);
        lemma_walk_bytes(pieces.drop_last());
    }
}

/// Every span is ordered and ends within `len` bytes.
pub open spec fn spans_within(spans: Seq<WordSpan>, len: nat) -> bool {
    forall|i: int| 0 <= i < spans.len() ==> spans[i].start <= spans[i].end && spans[i].end <= len
}

/// Every span starts where the one before it ended or later, and never
/// right where it ended: marks that touch are one mark.
pub open spec fn apart(spans: Seq<WordSpan>) -> bool {
    forall|i: int, j: int| 0 <= i < j < spans.len() ==> spans[i].end < spans[j].start
}

/// Every span starts where the one before it ended or later.
pub open spec fn ordered(spans: Seq<WordSpan>) -> bool {
    forall|i: int, j: int| 0 <= i < j < spans.len() ==> spans[i].end <= spans[j].start
}

/// Merge spans that touch, so one word split into three tokens is one mark.
pub fn join(spans: Vec<WordSpan>) -> (out: Vec<WordSpan>)
    ensures
        out@ == spec_join(spans@),
{
    let mut out: Vec<WordSpan> = Vec::new();
    let mut i: usize = 0;
    while i < spans.len()
        invariant
            0 <= i <= spans@.len(),
            out@ == spec_join(spans@.subrange(0, i as int)),
        decreases spans@.len() - i,
    {
        let span = spans[i];
        assert(spans@.subrange(0, i + 1).drop_last() == spans@.subrange(0, i as int));
        let n = out.len();
        if n > 0 && out[n - 1].end == span.start {
            let start = out[n - 1].start;
            out.set(n - 1, WordSpan { start, end: span.end });
        } else {
            out.push(span);
        }
        i = i + 1;
    }
    assert(spans@.subrange(0, spans@.len() as int) == spans@);
    out
}

/// The byte ranges that differ on each side, given the pieces of the diff
/// of the two lines.
pub fn marks_of(old: &str, new: &str, pieces: &Vec<Piece>) -> (out: (Vec<WordSpan>, Vec<WordSpan>))
    requires
        blen(old@) <= usize::MAX,
        blen(new@) <= usize::MAX,
        blen(side(pieces_view(pieces@), Tag::Insert)) <= usize::MAX,
        blen(side(pieces_view(pieces@), Tag::Delete)) <= usize::MAX,
    ensures
        (out.0@, out.1@) == spec_marks(old@, new@, pieces_view(pieces@)),
{
    if same_str(old, new) {
        return (Vec::new(), Vec::new());
    }
    let ghost ps = pieces_view(pieces@);
    let mut olds: Vec<WordSpan> = Vec::new();
    let mut news: Vec<WordSpan> = Vec::new();
    let mut o: usize = 0;
    let mut n: usize = 0;
    let mut shared: usize = 0;
    let mut i: usize = 0;
    while i < pieces.len()
        invariant
            0 <= i <= pieces@.len(),
            ps == pieces_view(pieces@),
            blen(side(ps, Tag::Insert)) <= usize::MAX,
            blen(side(ps, Tag::Delete)) <= usize::MAX,
            walk(ps.subrange(0, i as int)) == (Walk {
                o: o as nat,
                n: n as nat,
                shared: shared as nat,
                olds: olds@,
                news: news@,
            }),
        decreases pieces@.len() - i,
    {
        let ghost pre = ps.subrange(0, i as int);
        proof {
            assert(ps.subrange(0, i + 1).drop_last() == pre);
            lemma_side_prefix(ps, i + 1, Tag::Insert);
            lemma_side_prefix(ps, i + 1, Tag::Delete);
            lemma_side_prefix(ps, i as int, Tag::Insert);
            lemma_side_prefix(ps, i as int, Tag::Delete);
            lemma_walk_bytes(ps.subrange(0, i + 1));
            lemma_walk_bytes(pre);
        }
        let piece = &pieces[i];
        let len = piece.value.as_str().len();
        assert(len == blen(ps[i as int].1));
        match piece.tag {
            Tag::Equal => {
                shared = shared + len;
                o = o + len;
                n = n + len;
            },
            Tag::Delete => {
                olds.push(WordSpan { start: o, end: o + len });
                o = o + len;
            },
            Tag::Insert => {
                news.push(WordSpan { start: n, end: n + len });
                n = n + len;
            },
        }
        i = i + 1;
    }
    assert(ps.subrange(0, ps.len() as int) == ps);
    let lo = old.len();
    let ln = new.len();
    let longest = if lo >= ln { lo } else { ln };
    let longest = if longest == 0 { 1 } else { longest };
    let quarter = longest / 4 + if longest % 4 > 0 { 1 } else { 0 };
    assert((shared * 4 < longest) == (shared < quarter)) by (nonlinear_arith)
        requires
            quarter == longest / 4 + if longest % 4 > 0 { 1int } else { 0int },
            longest >= 1,
    ;
    if shared < quarter {
        return (Vec::new(), Vec::new());
    }
    (join(olds), join(news))
}

/// The byte ranges that differ, on the old side and on the new side.
pub fn compare(old: &str, new: &str) -> (out: (Vec<WordSpan>, Vec<WordSpan>))
    requires
        blen(old@) <= usize::MAX,
        blen(new@) <= usize::MAX,
    ensures
        (out.0@, out.1@) == spec_compare(old@, new@),
        spans_cut(out.0@, old@),
        spans_cut(out.1@, new@),
        apart(out.0@),
        apart(out.1@),
{
    if same_str(old, new) {
        return (Vec::new(), Vec::new());
    }
    let pieces = word_changes(old, new);
    proof {
        let pv = pieces_view(pieces@);
        assert forall|k: int| 0 <= k < pv.len() implies (#[trigger] pv[k]).1.len() > 0 by {
            assert(pv[k].1 == pieces@[k].value@);
        }
        law_marks_are_ranges_of_their_line(old@, new@, pv);
    }
    marks_of(old, new, &pieces)
}

/// How many rows of that kind start at `from`.
pub open spec fn run_len(rows: Seq<RowView>, from: int, kind: RowKind) -> nat
    decreases rows.len() - from,
{
    if 0 <= from < rows.len() && rows[from].kind == kind {
        1 + run_len(rows, from + 1, kind)
    } else {
        0
    }
}

/// The rows with the removed rows from `index` paired, in order, with the
/// added rows that follow them, `k` pairs, and each pair marked.
pub open spec fn paired(rows: Seq<RowView>, index: int, removes: int, k: int) -> Seq<RowView> {
    Seq::new(
        rows.len(),
        |i: int|
            if index <= i < index + k {
                RowView { words: spec_compare(rows[i].text, rows[i + removes].text).0, ..rows[i] }
            } else if index + removes <= i < index + removes + k {
                RowView { words: spec_compare(rows[i - removes].text, rows[i].text).1, ..rows[i] }
            } else {
                rows[i]
            },
    )
}

/// The rows from `index` on, marked.
#[verifier::opaque]
pub open spec fn mark_from(rows: Seq<RowView>, index: int) -> Seq<RowView>
    decreases if index < rows.len() { rows.len() - index } else { 0 },
{
    if index < 0 || index >= rows.len() {
        rows
    } else {
        let r = run_len(rows, index, RowKind::Remove) as int;
        let a = run_len(rows, index + r, RowKind::Add) as int;
        if r == 0 || a == 0 {
            let step = if r + a > 1 { r + a } else { 1 };
            mark_from(rows, index + step)
        } else {
            let k = if r < a { r } else { a };
            let next = paired(rows, index, r, k);
            mark_from(next, index + r + a)
        }
    }
}

/// One step of the marking, as the loop takes it.
proof fn lemma_mark_step(rows: Seq<RowView>, index: int)
    requires
        0 <= index < rows.len(),
    ensures
        ({
            let r = run_len(rows, index, RowKind::Remove) as int;
            let a = run_len(rows, index + r, RowKind::Add) as int;
            if r == 0 || a == 0 {
                let step = if r + a > 1 { r + a } else { 1 };
                mark_from(rows, index) == mark_from(rows, index + step)
            } else {
                let k = if r < a { r } else { a };
                mark_from(rows, index) == mark_from(paired(rows, index, r, k), index + r + a)
            }
        }),
{
    reveal(mark_from);
}

/// Past the last row there is nothing left to mark.
proof fn lemma_mark_done(rows: Seq<RowView>, index: int)
    requires
        index >= rows.len(),
    ensures
        mark_from(rows, index) == rows,
{
    reveal(mark_from);
}

/// The rows of a hunk with their intra-line changes marked.
pub open spec fn spec_mark(rows: Seq<RowView>) -> Seq<RowView> {
    mark_from(rows, 0)
}

/// How many rows of that kind start at `from`.
pub fn run(rows: &Vec<Row>, from: usize, kind: RowKind) -> (n: usize)
    ensures
        n == run_len(rows_view(rows@), from as int, kind),
        from + n <= rows@.len() || n == 0,
{
    let ghost rv = rows_view(rows@);
    let mut i = from;
    while i < rows.len() && rows[i].kind == kind
        invariant
            from <= i,
            i <= rows@.len() || i == from,
            rv == rows_view(rows@),
            run_len(rv, from as int, kind) == (i - from) + run_len(rv, i as int, kind),
        decreases rows@.len() - i,
    {
        i = i + 1;
    }
    i - from
}

/// Whether the text of every row can be counted in bytes with a `usize`.
pub open spec fn texts_fit(rows: Seq<RowView>) -> bool {
    forall|i: int| 0 <= i < rows.len() ==> blen(#[trigger] rows[i].text) <= usize::MAX
}

/// The rows are held in memory, so each text's length in bytes fits a
/// `usize`.
fn rows_fit(rows: &Vec<Row>)
    ensures
        texts_fit(rows_view(rows@)),
{
    let mut i: usize = 0;
    while i < rows.len()
        invariant
            0 <= i <= rows@.len(),
            forall|k: int| 0 <= k < i ==> blen(#[trigger] rows_view(rows@)[k].text) <= usize::MAX,
        decreases rows@.len() - i,
    {
        let _bytes = byte_len(rows[i].text.as_str());
        assert(rows_view(rows@)[i as int] == rows@[i as int]@);
        i = i + 1;
    }
}

/// Every mark of every row holds at least one byte, starts and ends on
/// character boundaries of the row's text, and never touches the next.
pub open spec fn words_cut(rows: Seq<RowView>) -> bool {
    forall|i: int| 0 <= i < rows.len() ==> spans_cut((#[trigger] rows[i]).words, rows[i].text) && apart(rows[i].words)
}

/// Mark the intra-line changes of every removed and added row of a hunk.
pub fn mark(hunk: &mut Hunk)
    ensures
        rows_view(final(hunk).rows@) == spec_mark(rows_view(old(hunk).rows@)),
        words_cut(rows_view(old(hunk).rows@)) ==> words_cut(rows_view(final(hunk).rows@)),
        final(hunk).old_start == old(hunk).old_start,
        final(hunk).old_lines == old(hunk).old_lines,
        final(hunk).new_start == old(hunk).new_start,
        final(hunk).new_lines == old(hunk).new_lines,
        final(hunk).header@ == old(hunk).header@,
{
    rows_fit(&hunk.rows);
    let mut index: usize = 0;
    let total = hunk.rows.len();
    let ghost goal = spec_mark(rows_view(hunk.rows@));
    while index < hunk.rows.len()
        invariant
            total == hunk.rows@.len(),
            mark_from(rows_view(hunk.rows@), index as int) == goal,
            texts_fit(rows_view(hunk.rows@)),
            words_cut(rows_view(old(hunk).rows@)) ==> words_cut(rows_view(hunk.rows@)),
            hunk.old_start == old(hunk).old_start,
            hunk.old_lines == old(hunk).old_lines,
            hunk.new_start == old(hunk).new_start,
            hunk.new_lines == old(hunk).new_lines,
            hunk.header@ == old(hunk).header@,
        decreases hunk.rows@.len() - index,
    {
        let ghost before = rows_view(hunk.rows@);
        proof {
            lemma_mark_step(before, index as int);
        }
        let removes = run(&hunk.rows, index, RowKind::Remove);
        let adds = run(&hunk.rows, index + removes, RowKind::Add);
        if removes == 0 || adds == 0 {
            let step = if removes + adds > 1 { removes + adds } else { 1 };
            index = index + step;
            continue;
        }
        // Pair them in order, the way the reader reads them. A run of three
        // removes and two adds leaves the third remove unpaired.
        let k = if removes < adds { removes } else { adds };
        let mut offset: usize = 0;
        while offset < k
            invariant
                0 <= offset <= k,
                k <= removes,
                k <= adds,
                index + removes + adds <= hunk.rows@.len(),
                total == hunk.rows@.len(),
                rows_view(hunk.rows@) == paired(before, index as int, removes as int, offset as int),
                before.len() == hunk.rows@.len(),
                texts_fit(before),
                words_cut(rows_view(old(hunk).rows@)) ==> words_cut(rows_view(hunk.rows@)),
                hunk.old_start == old(hunk).old_start,
                hunk.old_lines == old(hunk).old_lines,
                hunk.new_start == old(hunk).new_start,
                hunk.new_lines == old(hunk).new_lines,
                hunk.header@ == old(hunk).header@,
            decreases k - offset,
        {
            let old_at = index + offset;
            let new_at = index + removes + offset;
            let ghost cur = rows_view(hunk.rows@);
            assert(cur[old_at as int].text == before[old_at as int].text);
            assert(cur[new_at as int].text == before[new_at as int].text);
            assert(blen(before[old_at as int].text) <= usize::MAX);
            assert(blen(before[new_at as int].text) <= usize::MAX);
            let (old_spans, new_spans) = compare(
                hunk.rows[old_at].text.as_str(),
                hunk.rows[new_at].text.as_str(),
            );
            let ghost os = old_spans@;
            let ghost ns = new_spans@;
            hunk.rows[old_at].words = old_spans;
            hunk.rows[new_at].words = new_spans;
            let ghost after_rows = rows_view(hunk.rows@);
            proof {
                if words_cut(rows_view(old(hunk).rows@)) {
                    assert forall|j: int| 0 <= j < after_rows.len() implies spans_cut(
                        (#[trigger] after_rows[j]).words,
                        after_rows[j].text,
                    ) && apart(after_rows[j].words) by {
                        if j == old_at {
                            assert(after_rows[j].words == os);
                        } else if j == new_at {
                            assert(after_rows[j].words == ns);
                        } else {
                            assert(after_rows[j] == cur[j]);
                        }
                    }
                }
            }
            assert forall|j: int| 0 <= j < after_rows.len() implies #[trigger] after_rows[j] == paired(
                before,
                index as int,
                removes as int,
                offset + 1,
            )[j] by {
                if j == old_at {
                } else if j == new_at {
                } else {
                    assert(after_rows[j] == cur[j]);
                }
            }
            offset = offset + 1;
            assert(rows_view(hunk.rows@) =~= paired(
                before,
                index as int,
                removes as int,
                offset as int,
            ));
        }
        index = index + removes + adds;
    }
    proof {
        lemma_mark_done(rows_view(hunk.rows@), index as int);
    }
}


// ---------------------------------------------------------------------------
// What the marking keeps
// ---------------------------------------------------------------------------

proof fn lemma_join_apart(spans: Seq<WordSpan>, len: nat)
    requires
        ordered(spans),
        spans_within(spans, len),
    ensures
        apart(spec_join(spans)),
        spans_within(spec_join(spans), len),
        spans.len() > 0 ==> spec_join(spans).len() > 0 && spec_join(spans).last().end
            == spans.last().end,
        spans.len() == 0 ==> spec_join(spans).len() == 0,
    decreases spans.len(),
{
    if spans.len() > 0 {
        let init = spans.drop_last();
        assert(ordered(init));
        assert(spans_within(init, len));
        lemma_join_apart(init, len);
        let prev = spec_join(init);
        let last = spans.last();
        if prev.len() > 0 {
            assert(spans[init.len() - 1].end <= spans[init.len() as int].start);
            let out = spec_join(spans);
            if prev.last().end == last.start {
                assert forall|i: int, j: int| 0 <= i < j < out.len() implies out[i].end
                    < out[j].start by {
                    assert(prev[i].end <= prev[prev.len() - 1].end);
                }
            } else {
                assert forall|i: int, j: int| 0 <= i < j < out.len() implies out[i].end
                    < out[j].start by {
                    if j < prev.len() {
                    } else {
                        assert(prev[i].end <= prev[prev.len() - 1].end);
                    }
                }
            }
        }
    }
}

/// Whether `b` bytes into a text is where one of its characters starts, or
/// where the text ends.
pub open spec fn on_boundary(s: Seq<char>, b: nat) -> bool {
    exists|i: int| 0 <= i <= s.len() && #[trigger] blen(s.take(i)) == b
}

/// Every span holds at least one byte, and starts and ends on character
/// boundaries of the text.
pub open spec fn spans_cut(spans: Seq<WordSpan>, s: Seq<char>) -> bool {
    forall|k: int|
        0 <= k < spans.len() ==> (#[trigger] spans[k]).start < spans[k].end && on_boundary(s, spans[k].start as nat)
            && on_boundary(s, spans[k].end as nat)
}

proof fn lemma_blen_positive(s: Seq<char>)
    requires
        s.len() > 0,
    ensures
        blen(s) > 0,
{
    assert(encode_utf8(s) == encode_scalar(s[0] as u32) + encode_utf8(s.drop_first()));
}

proof fn lemma_boundary_extend(s: Seq<char>, t: Seq<char>, b: nat)
    requires
        on_boundary(s, b),
    ensures
        on_boundary(s + t, b),
{
    let i = choose|i: int| 0 <= i <= s.len() && #[trigger] blen(s.take(i)) == b;
    assert((s + t).take(i) =~= s.take(i));
}

proof fn lemma_boundary_whole(s: Seq<char>, t: Seq<char>)
    ensures
        on_boundary(s + t, blen(s)),
        on_boundary(s + t, blen(s + t)),
{
    assert((s + t).take(s.len() as int) =~= s);
    assert((s + t).take((s + t).len() as int) =~= s + t);
}

proof fn lemma_cut_extend(spans: Seq<WordSpan>, s: Seq<char>, t: Seq<char>)
    requires
        spans_cut(spans, s),
    ensures
        spans_cut(spans, s + t),
{
    assert forall|k: int| 0 <= k < spans.len() implies (#[trigger] spans[k]).start < spans[k].end
        && on_boundary(s + t, spans[k].start as nat) && on_boundary(s + t, spans[k].end as nat) by {
        lemma_boundary_extend(s, t, spans[k].start as nat);
        lemma_boundary_extend(s, t, spans[k].end as nat);
    }
}

proof fn lemma_walk_cut(pieces: Seq<(Tag, Seq<char>)>)
    requires
        forall|k: int| 0 <= k < pieces.len() ==> (#[trigger] pieces[k]).1.len() > 0,
        blen(side(pieces, Tag::Insert)) <= usize::MAX,
        blen(side(pieces, Tag::Delete)) <= usize::MAX,
    ensures
        spans_cut(walk(pieces).olds, side(pieces, Tag::Insert)),
        spans_cut(walk(pieces).news, side(pieces, Tag::Delete)),
    decreases pieces.len(),
{
    if pieces.len() > 0 {
        let prev = pieces.drop_last();
        let last = pieces.last();
        assert(last == pieces[pieces.len() - 1]);
        lemma_side_prefix(pieces, pieces.len() - 1, Tag::Insert);
        lemma_side_prefix(pieces, pieces.len() - 1, Tag::Delete);
        assert(pieces.subrange(0, pieces.len() - 1) == prev);
        assert forall|k: int| 0 <= k < prev.len() implies (#[trigger] prev[k]).1.len() > 0 by {
            assert(prev[k] == pieces[k]);
        }
        lemma_walk_cut(prev);
        lemma_walk_bytes(prev);
        let so = side(prev, Tag::Insert);
        let sn = side(prev, Tag::Delete);
        lemma_blen_positive(last.1);
        lemma_blen_concat(so, last.1);
        lemma_blen_concat(sn, last.1);
        match last.0 {
            Tag::Equal => {
                lemma_cut_extend(walk(prev).olds, so, last.1);
                lemma_cut_extend(walk(prev).news, sn, last.1);
            },
            Tag::Delete => {
                lemma_cut_extend(walk(prev).olds, so, last.1);
                lemma_boundary_whole(so, last.1);
                let o = walk(pieces).olds;
                assert forall|k: int| 0 <= k < o.len() implies (#[trigger] o[k]).start < o[k].end
                    && on_boundary(so + last.1, o[k].start as nat) && on_boundary(so + last.1, o[k].end as nat) by {
                    if k < o.len() - 1 {
                        assert(o[k] == walk(prev).olds[k]);
                    }
                }
                assert(side(pieces, Tag::Delete) == sn);
            },
            Tag::Insert => {
                lemma_cut_extend(walk(prev).news, sn, last.1);
                lemma_boundary_whole(sn, last.1);
                let n = walk(pieces).news;
                assert forall|k: int| 0 <= k < n.len() implies (#[trigger] n[k]).start < n[k].end
                    && on_boundary(sn + last.1, n[k].start as nat) && on_boundary(sn + last.1, n[k].end as nat) by {
                    if k < n.len() - 1 {
                        assert(n[k] == walk(prev).news[k]);
                    }
                }
                assert(side(pieces, Tag::Insert) == so);
            },
        }
    }
}

proof fn lemma_join_cut(spans: Seq<WordSpan>, s: Seq<char>)
    requires
        spans_cut(spans, s),
    ensures
        spans_cut(spec_join(spans), s),
        spans.len() > 0 ==> spec_join(spans).len() > 0 && spec_join(spans).last().end == spans.last().end,
    decreases spans.len(),
{
    if spans.len() > 0 {
        let init = spans.drop_last();
        assert forall|k: int| 0 <= k < init.len() implies (#[trigger] init[k]).start < init[k].end
            && on_boundary(s, init[k].start as nat) && on_boundary(s, init[k].end as nat) by {
            assert(init[k] == spans[k]);
        }
        lemma_join_cut(init, s);
        let prev = spec_join(init);
        let last = spans.last();
        assert(last == spans[spans.len() - 1]);
        let out = spec_join(spans);
        assert forall|k: int| 0 <= k < out.len() implies (#[trigger] out[k]).start < out[k].end
            && on_boundary(s, out[k].start as nat) && on_boundary(s, out[k].end as nat) by {
            if k < prev.len() - 1 || (k < prev.len() && !(prev.last().end == last.start)) {
                assert(out[k] == prev[k]);
            } else if k == prev.len() - 1 && prev.len() > 0 && prev.last().end == last.start {
                assert(out[k] == WordSpan { start: prev[k].start, end: last.end });
            }
        }
    }
}

/// The marks of two lines are byte ranges of their own lines, in order,
/// and two marks never touch: a word split into several tokens is one mark.
/// This holds for any pieces that spell the two lines, which is what a diff
/// gives. When no piece is empty, every mark holds at least one byte and
/// starts and ends on character boundaries of its line.
pub proof fn law_marks_are_ranges_of_their_line(
    old: Seq<char>,
    new: Seq<char>,
    pieces: Seq<(Tag, Seq<char>)>,
)
    requires
        side(pieces, Tag::Insert) == old,
        side(pieces, Tag::Delete) == new,
        blen(old) <= usize::MAX,
        blen(new) <= usize::MAX,
    ensures
        spans_within(spec_marks(old, new, pieces).0, blen(old)),
        spans_within(spec_marks(old, new, pieces).1, blen(new)),
        apart(spec_marks(old, new, pieces).0),
        apart(spec_marks(old, new, pieces).1),
        (forall|k: int| 0 <= k < pieces.len() ==> (#[trigger] pieces[k]).1.len() > 0) ==> spans_cut(
            spec_marks(old, new, pieces).0,
            old,
        ) && spans_cut(spec_marks(old, new, pieces).1, new),
{
    lemma_walk_bytes(pieces);
    let w = walk(pieces);
    lemma_join_apart(w.olds, w.o);
    lemma_join_apart(w.news, w.n);
    if forall|k: int| 0 <= k < pieces.len() ==> (#[trigger] pieces[k]).1.len() > 0 {
        lemma_walk_cut(pieces);
        lemma_join_cut(w.olds, old);
        lemma_join_cut(w.news, new);
    }
}

/// Rows from `from` on, `n` of them, are of that kind.
proof fn lemma_run_kinds(rows: Seq<RowView>, from: int, kind: RowKind)
    requires
        0 <= from,
    ensures
        from + run_len(rows, from, kind) <= rows.len() || run_len(rows, from, kind) == 0,
        forall|i: int| from <= i < from + run_len(rows, from, kind) ==> #[trigger] rows[i].kind == kind,
    decreases rows.len() - from,
{
    if 0 <= from < rows.len() && rows[from].kind == kind {
        lemma_run_kinds(rows, from + 1, kind);
    }
}

/// A row that marking leaves as it was, but for its marks.
pub open spec fn same_but_words(a: RowView, b: RowView) -> bool {
    &&& a.kind == b.kind
    &&& a.old_line == b.old_line
    &&& a.new_line == b.new_line
    &&& a.text == b.text
    &&& a.no_newline == b.no_newline
    &&& a.tokens == b.tokens
    &&& a.kind == RowKind::Context ==> a.words == b.words
}

proof fn lemma_mark_from_keeps(rows: Seq<RowView>, index: int)
    requires
        0 <= index,
    ensures
        mark_from(rows, index).len() == rows.len(),
        forall|i: int| 0 <= i < rows.len() ==> same_but_words(rows[i], #[trigger] mark_from(rows, index)[i]),
    decreases if index < rows.len() { rows.len() - index } else { 0 },
{
    reveal(mark_from);
    if index < rows.len() {
        let r = run_len(rows, index, RowKind::Remove) as int;
        let a = run_len(rows, index + r, RowKind::Add) as int;
        lemma_run_kinds(rows, index, RowKind::Remove);
        lemma_run_kinds(rows, index + r, RowKind::Add);
        if r == 0 || a == 0 {
            let step = if r + a > 1 { r + a } else { 1 };
            lemma_mark_from_keeps(rows, index + step);
        } else {
            let k = if r < a { r } else { a };
            let next = paired(rows, index, r, k);
            lemma_mark_from_keeps(next, index + r + a);
            assert forall|i: int| 0 <= i < rows.len() implies same_but_words(
                rows[i],
                #[trigger] mark_from(rows, index)[i],
            ) by {
                assert(same_but_words(rows[i], next[i]));
                assert(same_but_words(next[i], mark_from(next, index + r + a)[i]));
            }
        }
    }
}

/// Marking a hunk changes nothing but the marks: every row keeps its kind,
/// its text, its line numbers, its newline flag and its syntax classes, and
/// a context row is never marked.
pub proof fn law_mark_changes_only_the_marks(rows: Seq<RowView>)
    ensures
        spec_mark(rows).len() == rows.len(),
        forall|i: int| 0 <= i < rows.len() ==> same_but_words(rows[i], #[trigger] spec_mark(rows)[i]),
{
    lemma_mark_from_keeps(rows, 0);
}

} // verus!
