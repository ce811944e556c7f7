//! Offsets the browser can slice with.
//!
//! Rust counts bytes, JavaScript counts UTF-16 code units. A line with one
//! accent in it makes every span after that point land in the wrong place, so
//! the offsets are converted once, where a row leaves the server.

use vstd::prelude::*;
use vstd::utf8::{char_is_scalar, encode_utf8, is_ascii_chars};
use crate::diff::words::{blen, byte_len, lemma_blen_concat};
use crate::model::{Row, RowView, Span, SpanView, WordSpan};
use crate::text::chars_of;

verus! {

/// How many bytes UTF-8 takes for the character.
pub open spec fn width8(c: char) -> nat {
    if (c as u32) <= 0x7F {
        1
    } else if (c as u32) <= 0x7FF {
        2
    } else if (c as u32) <= 0xFFFF {
        3
    } else {
        4
    }
}

/// How many UTF-16 units the character takes: two outside the basic plane.
pub open spec fn width16(c: char) -> nat {
    if (c as u32) < 0x10000 {
        1
    } else {
        2
    }
}

/// How many UTF-16 units the text takes.
pub open spec fn len16(s: Seq<char>) -> nat
    decreases s.len(),
{
    if s.len() == 0 {
        0
    } else {
        len16(s.drop_last()) + width16(s.last())
    }
}

/// The longest start of the text, in characters, whose UTF-8 bytes fit in
/// `byte`, among the first `k` characters.
pub open spec fn last_fit(text: Seq<char>, byte: nat, k: int) -> int
    decreases k,
{
    if k <= 0 {
        0
    } else if blen(text.subrange(0, k)) <= byte {
        k
    } else {
        last_fit(text, byte, k - 1)
    }
}

/// The UTF-16 offset of a byte offset of the text. An offset inside a
/// character rounds down to the boundary before it; one past the end is the
/// end.
pub open spec fn utf16_at(text: Seq<char>, byte: nat) -> nat {
    len16(text.subrange(0, last_fit(text, byte, text.len() as int)))
}

/// The views of a run of spans.
pub open spec fn spans_view(v: Seq<Span>) -> Seq<SpanView> {
    v.map_values(|s: Span| s@)
}

/// A span with its offsets converted.
pub open spec fn span16(text: Seq<char>, s: SpanView) -> SpanView {
    SpanView { start: utf16_at(text, s.start as nat) as usize, end: utf16_at(text, s.end as nat) as usize, cls: s.cls }
}

/// A word mark with its offsets converted.
pub open spec fn word16(text: Seq<char>, w: WordSpan) -> WordSpan {
    WordSpan { start: utf16_at(text, w.start as nat) as usize, end: utf16_at(text, w.end as nat) as usize }
}

/// The row with every span converted: an ASCII line needs no work at all.
pub open spec fn spec_to_utf16(r: RowView) -> RowView {
    if is_ascii_chars(r.text) {
        r
    } else {
        RowView {
            tokens: r.tokens.map_values(|s: SpanView| span16(r.text, s)),
            words: r.words.map_values(|w: WordSpan| word16(r.text, w)),
            ..r
        }
    }
}

proof fn lemma_blen_push(s: Seq<char>, c: char)
    ensures
        blen(s.push(c)) == blen(s) + width8(c),
{
    lemma_blen_concat(s, seq![c]);
    assert(s + seq![c] == s.push(c));
    assert(seq![c].drop_first().len() == 0);
    assert(encode_utf8(seq![c].drop_first()) == Seq::<u8>::empty());
    assert(seq![c][0] == c);
    char_is_scalar(c);
}

proof fn lemma_prefix_bytes(s: Seq<char>, i: int)
    requires
        0 <= i <= s.len(),
    ensures
        blen(s.subrange(0, i)) <= blen(s),
{
    lemma_blen_concat(s.subrange(0, i), s.subrange(i, s.len() as int));
    assert(s.subrange(0, i) + s.subrange(i, s.len() as int) == s);
}

proof fn lemma_len16_bytes(s: Seq<char>)
    ensures
        len16(s) <= blen(s),
    decreases s.len(),
{
    if s.len() > 0 {
        lemma_len16_bytes(s.drop_last());
        lemma_blen_push(s.drop_last(), s.last());
        assert(s.drop_last().push(s.last()) == s);
    }
}

/// Byte offset to UTF-16 offset, for one line.
pub struct ByteMap {
    /// One entry per character boundary: the byte index and the UTF-16 index.
    points: Vec<(usize, usize)>,
    end: usize,
    text: Ghost<Seq<char>>,
}

impl ByteMap {
    /// The map holds the boundaries of its text.
    pub closed spec fn wf(&self) -> bool {
        let t = self.text@;
        &&& self.points@.len() == t.len() + 1
        &&& forall|i: int|
            0 <= i <= t.len() ==> (#[trigger] self.points@[i]).0 == blen(t.subrange(0, i))
                && self.points@[i].1 == len16(t.subrange(0, i))
        &&& self.end == len16(t)
    }

    /// The text the map was made of.
    pub closed spec fn text(&self) -> Seq<char> {
        self.text@
    }

    /// The map of a line.
    pub fn of(text: &str) -> (m: Self)
        ensures
            m.wf(),
            m.text() == text@,
    {
        // The line is held in memory, so its length in bytes fits a `usize`.
        let _bytes = byte_len(text);
        let v = chars_of(text);
        let ghost t = text@;
        let mut points: Vec<(usize, usize)> = Vec::new();
        let mut byte: usize = 0;
        let mut utf16: usize = 0;
        let mut i: usize = 0;
        while i < v.len()
            invariant
                i <= v@.len(),
                v@ == t,
                blen(t) <= usize::MAX,
                byte == blen(t.subrange(0, i as int)),
                utf16 == len16(t.subrange(0, i as int)),
                points@.len() == i,
                forall|k: int|
                    0 <= k < i ==> (#[trigger] points@[k]).0 == blen(t.subrange(0, k)) && points@[k].1
                        == len16(t.subrange(0, k)),
            decreases v@.len() - i,
        {
            points.push((byte, utf16));
            let c = v[i];
            let w8: usize = if (c as u32) <= 0x7F {
                1
            } else if (c as u32) <= 0x7FF {
                2
            } else if (c as u32) <= 0xFFFF {
                3
            } else {
                4
            };
            let w16: usize = if (c as u32) < 0x10000 {
                1
            } else {
                2
            };
            proof {
                assert(t.subrange(0, i + 1) == t.subrange(0, i as int).push(c));
                lemma_blen_push(t.subrange(0, i as int), c);
                lemma_prefix_bytes(t, i + 1);
                lemma_len16_bytes(t.subrange(0, i + 1));
                assert(t.subrange(0, i + 1).drop_last() == t.subrange(0, i as int));
            }
            byte = byte + w8;
            utf16 = utf16 + w16;
            i = i + 1;
        }
        assert(t.subrange(0, t.len() as int) == t);
        points.push((byte, utf16));
        ByteMap { points, end: utf16, text: Ghost(t) }
    }

    /// The UTF-16 offset of a byte offset.
    pub fn at(&self, byte: usize) -> (u: usize)
        requires
            self.wf(),
        ensures
            u == utf16_at(self.text(), byte as nat),
    {
        let ghost t = self.text@;
        let mut best: usize = 0;
        let mut i: usize = 0;
        while i < self.points.len()
            invariant
                self.wf(),
                t == self.text@,
                i <= self.points@.len(),
                i > 0 ==> best == len16(t.subrange(0, last_fit(t, byte as nat, i - 1))),
                i == 0 ==> best == 0,
            decreases self.points@.len() - i,
        {
            if self.points[i].0 <= byte {
                best = self.points[i].1;
            }
            proof {
                if i == 0 {
                    assert(t.subrange(0, 0) == Seq::<char>::empty());
                }
            }
            i = i + 1;
        }
        proof {
            assert(t.subrange(0, 0) == Seq::<char>::empty());
        }
        best
    }
}

/// Convert every span of a row from byte offsets to UTF-16 offsets.
pub fn to_utf16(row: &mut Row)
    ensures
        final(row)@ == spec_to_utf16(old(row)@),
{
    if row.text.as_str().is_ascii() {
        return;
    }
    let _bytes = byte_len(row.text.as_str());
    let map = ByteMap::of(row.text.as_str());
    let ghost t = row.text@;
    let ghost toks = old(row)@.tokens;
    let mut tokens: Vec<Span> = Vec::new();
    let mut rest: Vec<Span> = Vec::new();
    std::mem::swap(&mut rest, &mut row.tokens);
    assert(spans_view(rest@) =~= toks);
    let n = rest.len();
    let mut i: usize = 0;
    while i < n
        invariant
            map.wf(),
            map.text() == t,
            i <= n,
            n == toks.len(),
            spans_view(rest@) == toks.subrange(i as int, n as int),
            spans_view(tokens@) == toks.subrange(0, i as int).map_values(|s: SpanView| span16(t, s)),
        decreases n - i,
    {
        let ghost prior = rest@;
        assert(spans_view(prior).len() == prior.len());
        assert(spans_view(prior)[0] == prior[0]@);
        let s = rest.remove(0);
        assert(s@ == toks[i as int]);
        assert forall|k: int| 0 <= k < rest@.len() implies #[trigger] rest@[k]@ == toks[i + 1 + k] by {
            assert(rest@[k] == prior[k + 1]);
            assert(spans_view(prior)[k + 1] == prior[k + 1]@);
        }
        assert(spans_view(rest@) =~= toks.subrange(i + 1, n as int));
        let start = map.at(s.start);
        let end = map.at(s.end);
        let ghost before = spans_view(tokens@);
        tokens.push(Span { start, end, cls: s.cls });
        assert(spans_view(tokens@) =~= before.push(span16(t, toks[i as int])));
        assert(toks.subrange(0, i + 1).map_values(|s: SpanView| span16(t, s)) =~= toks.subrange(0, i as int).map_values(
            |s: SpanView| span16(t, s),
        ).push(span16(t, toks[i as int])));
        i = i + 1;
    }
    assert(toks.subrange(0, n as int) == toks);
    row.tokens = tokens;
    let ghost ws = old(row)@.words;
    let mut words: Vec<WordSpan> = Vec::new();
    let mut j: usize = 0;
    while j < row.words.len()
        invariant
            map.wf(),
            map.text() == t,
            j <= row.words@.len(),
            row.words@ == ws,
            words@ == ws.subrange(0, j as int).map_values(|w: WordSpan| word16(t, w)),
        decreases row.words@.len() - j,
    {
        let w = row.words[j];
        let start = map.at(w.start);
        let end = map.at(w.end);
        words.push(WordSpan { start, end });
        assert(ws.subrange(0, j + 1).map_values(|w: WordSpan| word16(t, w)) =~= ws.subrange(0, j as int).map_values(
            |w: WordSpan| word16(t, w),
        ).push(word16(t, ws[j as int])));
        j = j + 1;
    }
    assert(ws.subrange(0, ws.len() as int) == ws);
    row.words = words;
    assert(row@.tokens =~= spec_to_utf16(old(row)@).tokens);
    assert(row@.words =~= spec_to_utf16(old(row)@).words);
}

} // verus!
