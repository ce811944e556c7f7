//! The review, as text to paste into a session.
//!
//! The format is a contract with whatever reads it. The code comes before
//! the comment: the reader needs the context first. Reading the comments and
//! the files is the caller's; the text of each part is built here.

use vstd::prelude::*;
use crate::store::model::{Anchor, Comment, Scope, Side};
use crate::text::{
    chars_of, decimal, decimal_of, extend, extend_str, lines, lines_of, occurs_at, slice,
    string_of, trim, trim_chars, trim_start, trim_start_chars,
};

verus! {

/// Lines of code shown around a comment.
pub const CONTEXT: usize = 2;

/// Whether a unit opens a surrogate pair.
pub open spec fn is_high(u: u16) -> bool {
    0xD800 <= u && u <= 0xDBFF
}

/// Whether a unit closes a surrogate pair.
pub open spec fn is_low(u: u16) -> bool {
    0xDC00 <= u && u <= 0xDFFF
}

/// The text of a run of UTF-16 units, as `String::from_utf16_lossy` reads
/// it: a unit outside the surrogates is its character, a high surrogate
/// followed by a low one is the character of the pair, and any other
/// surrogate becomes U+FFFD.
#[verifier::opaque]
pub open spec fn utf16_lossy(units: Seq<u16>) -> Seq<char>
    decreases units.len(),
{
    if units.len() == 0 {
        Seq::empty()
    } else {
        let u = units[0];
        if !is_high(u) && !is_low(u) {
            seq![(u as u32) as char] + utf16_lossy(units.drop_first())
        } else if is_high(u) && units.len() >= 2 && is_low(units[1]) {
            seq![(0x10000 + ((u - 0xD800) as u32) * 1024 + ((units[1] - 0xDC00) as u32)) as char]
                + utf16_lossy(units.subrange(2, units.len() as int))
        } else {
            seq!['\u{FFFD}'] + utf16_lossy(units.drop_first())
        }
    }
}

/// The character of a code point, when it is one.
///
/// Calls `char::from_u32`, which gives the character exactly when the
/// number is a Unicode scalar value: below U+110000 and outside the
/// surrogates.
#[verifier::external_body]
fn char_of(v: u32) -> (out: Option<char>)
    ensures
        (v < 0xD800 || (0xE000 <= v && v < 0x110000)) ==> out == Some(v as char),
        !(v < 0xD800 || (0xE000 <= v && v < 0x110000)) ==> out is None,
{
    char::from_u32(v)
}

/// The text of a run of UTF-16 units, a unit that is no character becoming
/// U+FFFD.
pub fn decode16(units: &[u16]) -> (out: String)
    ensures
        out@ == utf16_lossy(units@),
{
    let n = units.len();
    let mut out: Vec<char> = Vec::new();
    let mut i: usize = 0;
    assert(units@.subrange(0, n as int) =~= units@);
    proof {
        reveal(utf16_lossy);
    }
    while i < n
        invariant
            i <= n,
            n == units@.len(),
            utf16_lossy(units@) == out@ + utf16_lossy(units@.subrange(i as int, n as int)),
        decreases n - i,
    {
        let ghost rest = units@.subrange(i as int, n as int);
        let u = units[i];
        assert(rest[0] == u);
        proof {
            reveal(utf16_lossy);
        }
        if u < 0xD800 || u > 0xDFFF {
            let c = char_of(u as u32);
            let ch = match c {
                Some(ch) => ch,
                None => '\u{FFFD}',
            };
            assert(rest.drop_first() =~= units@.subrange(i + 1, n as int));
            assert(ch == (u as u32) as char);
            out.push(ch);
            i = i + 1;
        } else if u <= 0xDBFF && i + 1 < n && units[i + 1] >= 0xDC00 && units[i + 1] <= 0xDFFF {
            let v: u32 = 0x10000 + ((u - 0xD800) as u32) * 1024 + ((units[i + 1] - 0xDC00) as u32);
            let c = char_of(v);
            let ch = match c {
                Some(ch) => ch,
                None => '\u{FFFD}',
            };
            assert(rest[1] == units@[i + 1]);
            assert(rest.subrange(2, rest.len() as int) =~= units@.subrange(i + 2, n as int));
            assert(ch == v as char);
            out.push(ch);
            i = i + 2;
        } else {
            assert(rest.drop_first() =~= units@.subrange(i + 1, n as int));
            out.push('\u{FFFD}');
            i = i + 1;
        }
    }
    assert(units@.subrange(n as int, n as int) =~= Seq::<u16>::empty());
    string_of(out.as_slice())
}

/// The UTF-16 units of a character.
pub open spec fn units_of(c: char) -> Seq<u16> {
    let v = c as u32;
    if v < 0x10000 {
        seq![v as u16]
    } else {
        seq![(0xD800 + (v - 0x10000) / 1024) as u16, (0xDC00 + (v - 0x10000) % 1024) as u16]
    }
}

/// The UTF-16 units of a text, the units the browser measures in.
pub open spec fn utf16_of(s: Seq<char>) -> Seq<u16>
    decreases s.len(),
{
    if s.len() == 0 {
        Seq::empty()
    } else {
        utf16_of(s.drop_last()) + units_of(s.last())
    }
}

/// The UTF-16 units of a text.
pub fn utf16_units(s: &str) -> (out: Vec<u16>)
    ensures
        out@ == utf16_of(s@),
{
    let v = chars_of(s);
    let mut out: Vec<u16> = Vec::new();
    let mut i: usize = 0;
    while i < v.len()
        invariant
            i <= v@.len(),
            v@ == s@,
            out@ == utf16_of(s@.subrange(0, i as int)),
        decreases v@.len() - i,
    {
        let c = v[i] as u32;
        proof {
            vstd::utf8::char_is_scalar(v@[i as int]);
        }
        if c < 0x10000 {
            out.push(c as u16);
        } else {
            out.push((0xD800 + (c - 0x10000) / 1024) as u16);
            out.push((0xDC00 + (c - 0x10000) % 1024) as u16);
        }
        assert(s@.subrange(0, i + 1).drop_last() == s@.subrange(0, i as int));
        assert(out@ =~= utf16_of(s@.subrange(0, i + 1)));
        i = i + 1;
    }
    assert(s@.subrange(0, v@.len() as int) == s@);
    out
}

/// How many backticks end the text.
pub open spec fn ticks_at_end(s: Seq<char>) -> nat
    decreases s.len(),
{
    if s.len() > 0 && s.last() == '`' {
        ticks_at_end(s.drop_last()) + 1
    } else {
        0
    }
}

/// The longest run of backticks in the text.
pub open spec fn longest_ticks(s: Seq<char>) -> nat
    decreases s.len(),
{
    if s.len() == 0 {
        0
    } else if ticks_at_end(s) > longest_ticks(s.drop_last()) {
        ticks_at_end(s)
    } else {
        longest_ticks(s.drop_last())
    }
}

/// A Markdown code span around the text: a fence one backtick longer than
/// the longest run inside, and a space inside the fence when the text starts
/// or ends with a backtick, so it does not join the fence.
pub open spec fn spec_code_span(text: Seq<char>) -> Seq<char> {
    let fence = Seq::new(longest_ticks(text) + 1, |i: int| '`');
    let pad = if text.len() > 0 && (text[0] == '`' || text.last() == '`') {
        seq![' ']
    } else {
        Seq::empty()
    };
    fence + pad + text + pad + fence
}

proof fn lemma_ticks_bounded(s: Seq<char>)
    ensures
        ticks_at_end(s) <= s.len(),
        longest_ticks(s) <= s.len(),
    decreases s.len(),
{
    if s.len() > 0 {
        lemma_ticks_bounded(s.drop_last());
    }
}

/// A Markdown code span around the text.
pub fn code_span(text: &str) -> (out: String)
    ensures
        out@ == spec_code_span(text@),
{
    let v = chars_of(text);
    let mut run: usize = 0;
    let mut longest: usize = 0;
    let mut i: usize = 0;
    while i < v.len()
        invariant
            i <= v@.len(),
            v@ == text@,
            run == ticks_at_end(text@.subrange(0, i as int)),
            longest == longest_ticks(text@.subrange(0, i as int)),
            run <= i,
            longest <= i,
        decreases v@.len() - i,
    {
        let ghost sub = text@.subrange(0, i + 1);
        assert(sub.drop_last() == text@.subrange(0, i as int));
        assert(sub.last() == v@[i as int]);
        if v[i] == '`' {
            run = run + 1;
        } else {
            run = 0;
        }
        if run > longest {
            longest = run;
        }
        i = i + 1;
    }
    assert(text@.subrange(0, v@.len() as int) == text@);
    let mut fence: Vec<char> = Vec::new();
    fence.push('`');
    assert(fence@ =~= Seq::new(1, |j: int| '`'));
    let mut k: usize = 0;
    while k < longest
        invariant
            k <= longest,
            fence@ == Seq::new((k + 1) as nat, |j: int| '`'),
        decreases longest - k,
    {
        fence.push('`');
        assert(fence@ =~= Seq::new((k + 2) as nat, |j: int| '`'));
        k = k + 1;
    }
    let n = v.len();
    let padded = n > 0 && (v[0] == '`' || v[n - 1] == '`');
    let mut out: Vec<char> = Vec::new();
    extend(&mut out, fence.as_slice());
    if padded {
        out.push(' ');
    }
    extend(&mut out, v.as_slice());
    if padded {
        out.push(' ');
    }
    extend(&mut out, fence.as_slice());
    let s = string_of(out.as_slice());
    assert(s@ =~= spec_code_span(text@));
    s
}

/// `first` to `ninth` in words, then the number and its suffix: `10th`,
/// `21st`, `112th`.
pub open spec fn spec_ordinal(n: usize) -> Seq<char> {
    if n == 1 {
        "first"@
    } else if n == 2 {
        "second"@
    } else if n == 3 {
        "third"@
    } else if n == 4 {
        "fourth"@
    } else if n == 5 {
        "fifth"@
    } else if n == 6 {
        "sixth"@
    } else if n == 7 {
        "seventh"@
    } else if n == 8 {
        "eighth"@
    } else if n == 9 {
        "ninth"@
    } else {
        decimal(n as nat) + if 11 <= n % 100 && n % 100 <= 13 {
            "th"@
        } else if n % 10 == 1 {
            "st"@
        } else if n % 10 == 2 {
            "nd"@
        } else if n % 10 == 3 {
            "rd"@
        } else {
            "th"@
        }
    }
}

/// `first` to `ninth` in words, then `10th`, `21st`, `112th`.
pub fn ordinal(n: usize) -> (out: String)
    ensures
        out@ == spec_ordinal(n),
{
    if n == 1 {
        return "first".to_owned();
    } else if n == 2 {
        return "second".to_owned();
    } else if n == 3 {
        return "third".to_owned();
    } else if n == 4 {
        return "fourth".to_owned();
    } else if n == 5 {
        return "fifth".to_owned();
    } else if n == 6 {
        return "sixth".to_owned();
    } else if n == 7 {
        return "seventh".to_owned();
    } else if n == 8 {
        return "eighth".to_owned();
    } else if n == 9 {
        return "ninth".to_owned();
    }
    let mut v = decimal_of(n);
    let suffix = if 11 <= n % 100 && n % 100 <= 13 {
        "th"
    } else if n % 10 == 1 {
        "st"
    } else if n % 10 == 2 {
        "nd"
    } else if n % 10 == 3 {
        "rd"
    } else {
        "th"
    };
    extend_str(&mut v, suffix);
    string_of(v.as_slice())
}

/// How many times `text` occurs in `full` at a place before `upto`.
pub open spec fn occurrences(full: Seq<char>, text: Seq<char>, upto: int) -> nat
    decreases upto,
{
    if upto <= 0 {
        0
    } else {
        occurrences(full, text, upto - 1) + if occurs_at(full, text, upto - 1) {
            1nat
        } else {
            0nat
        }
    }
}

/// The text between two offsets of a line, as a Markdown code span, or
/// nothing when it is only spaces.
///
/// A text that occurs more than once on its line says which one it is:
/// `the second `%d``. The places are counted in characters, which orders
/// them as the bytes of the line do.
pub open spec fn spec_quote(line: Seq<u16>, from: int, to: int) -> Option<Seq<char>> {
    let head = utf16_lossy(line.subrange(0, from));
    let picked = utf16_lossy(line.subrange(from, to));
    let tail = utf16_lossy(line.subrange(to, line.len() as int));
    let text = trim(picked);
    if text.len() == 0 {
        None
    } else {
        let span = spec_code_span(text);
        let full = head + picked + tail;
        let at = head.len() + picked.len() - trim_start(picked).len();
        if occurrences(full, text, full.len() as int + 1) < 2 {
            Some(span)
        } else {
            Some("the "@ + spec_ordinal((occurrences(full, text, at) + 1) as usize) + " "@ + span)
        }
    }
}

/// Whether `p` occurs in `s` at `i`.
fn occurs(s: &Vec<char>, p: &Vec<char>, i: usize) -> (b: bool)
    ensures
        b == occurs_at(s@, p@, i as int),
{
    let n = s.len();
    let m = p.len();
    if i > n || m > n - i {
        return false;
    }
    let mut k: usize = 0;
    while k < m
        invariant
            k <= m,
            m == p@.len(),
            n == s@.len(),
            i + m <= n,
            forall|j: int| 0 <= j < k ==> s@[i + j] == p@[j],
        decreases m - k,
    {
        if s[i + k] != p[k] {
            assert(s@.subrange(i as int, i + m)[k as int] != p@[k as int]);
            return false;
        }
        k = k + 1;
    }
    assert(s@.subrange(i as int, i + m) =~= p@);
    true
}

/// The text between two offsets of a line, as a Markdown code span.
pub fn quote(line: &[u16], from: usize, to: usize) -> (out: Option<String>)
    requires
        from <= to <= line@.len(),
    ensures
        match out {
            Some(q) => spec_quote(line@, from as int, to as int) == Some(q@),
            None => spec_quote(line@, from as int, to as int) is None,
        },
{
    let n = line.len();
    let head_units = slice_units(line, 0, from);
    let picked_units = slice_units(line, from, to);
    let tail_units = slice_units(line, to, n);
    let head = chars_of(decode16(head_units.as_slice()).as_str());
    let picked = chars_of(decode16(picked_units.as_slice()).as_str());
    let tail = chars_of(decode16(tail_units.as_slice()).as_str());
    let text = trim_chars(picked.as_slice());
    if text.len() == 0 {
        return None;
    }
    let span = code_span(string_of(text.as_slice()).as_str());
    let mut full: Vec<char> = Vec::new();
    extend(&mut full, head.as_slice());
    extend(&mut full, picked.as_slice());
    extend(&mut full, tail.as_slice());
    let lead = trim_start_chars(picked.as_slice()).len();
    proof {
        crate::text::lemma_trim_start_len(picked@);
    }
    let total = full.len();
    assert(total == head@.len() + picked@.len() + tail@.len());
    let at = head.len() + (picked.len() - lead);
    let ghost fv = full@;
    let mut all: usize = 0;
    let mut before: usize = 0;
    let mut i: usize = 0;
    while i < full.len()
        invariant
            i <= full@.len(),
            at <= full@.len(),
            text@.len() > 0,
            fv == full@,
            all == occurrences(fv, text@, i as int),
            before == occurrences(fv, text@, if i <= at { i as int } else { at as int }),
            all <= i,
            before <= all,
            before <= at,
        decreases full@.len() - i,
    {
        if occurs(&full, &text, i) {
            all = all + 1;
            if i < at {
                before = before + 1;
            }
        }
        i = i + 1;
    }
    assert(!occurs_at(fv, text@, fv.len() as int));
    assert(all == occurrences(fv, text@, fv.len() as int + 1));
    assert(before == occurrences(fv, text@, at as int));
    if all < 2 {
        return Some(span);
    }
    let mut out = chars_of("the ");
    proof {
        if trim_start(picked@).len() == 0 {
            assert(trim(picked@) == crate::text::trim_end(trim_start(picked@)));
            assert(trim(picked@).len() == 0);
        }
    }
    assert(at < total);
    let word = ordinal(before + 1);
    extend_str(&mut out, word.as_str());
    extend_str(&mut out, " ");
    extend_str(&mut out, span.as_str());
    let q = string_of(out.as_slice());
    assert(q@ =~= "the "@ + spec_ordinal((before + 1) as usize) + " "@ + span@);
    Some(q)
}

/// The units from `from` to `to`.
fn slice_units(v: &[u16], from: usize, to: usize) -> (out: Vec<u16>)
    requires
        from <= to <= v@.len(),
    ensures
        out@ == v@.subrange(from as int, to as int),
{
    let mut out: Vec<u16> = Vec::new();
    let mut i = from;
    while i < to
        invariant
            from <= i <= to,
            to <= v@.len(),
            out@ == v@.subrange(from as int, i as int),
        decreases to - i,
    {
        out.push(v[i]);
        assert(out@ =~= v@.subrange(from as int, i + 1));
        i = i + 1;
    }
    out
}

/// Where a comment sits, as the heading of its entry names it.
pub open spec fn spec_place_of(c: Comment) -> Seq<char> {
    match c.anchor {
        None => "The change"@,
        Some(a) => if c.scope == Scope::File {
            a.file@ + " (the file)"@
        } else {
            match a.start_line {
                None => a.file@,
                Some(s) => match a.end_line {
                    Some(e) => if e > s {
                        a.file@ + ":"@ + decimal(s as nat) + "-"@ + decimal(e as nat)
                    } else {
                        a.file@ + ":"@ + decimal(s as nat)
                    },
                    None => a.file@ + ":"@ + decimal(s as nat),
                },
            }
        },
    }
}

/// `text`, a colon and a number.
fn at_line(text: &str, n: usize) -> (out: Vec<char>)
    ensures
        out@ == text@ + ":"@ + decimal(n as nat),
{
    let mut v = chars_of(text);
    extend_str(&mut v, ":");
    let d = decimal_of(n);
    extend(&mut v, d.as_slice());
    v
}

/// Where a comment sits, as the heading of its entry names it.
pub fn place_of(comment: &Comment) -> (out: String)
    ensures
        out@ == spec_place_of(*comment),
{
    let a = match &comment.anchor {
        None => return "The change".to_owned(),
        Some(a) => a,
    };
    if comment.scope == Scope::File {
        let mut v = chars_of(a.file.as_str());
        extend_str(&mut v, " (the file)");
        return string_of(v.as_slice());
    }
    let start = match a.start_line {
        None => return crate::text::copy_string(&a.file),
        Some(s) => s,
    };
    let mut v = at_line(a.file.as_str(), start);
    match a.end_line {
        Some(end) => if end > start {
            extend_str(&mut v, "-");
            let d = decimal_of(end);
            extend(&mut v, d.as_slice());
        },
        None => {},
    }
    string_of(v.as_slice())
}

/// What follows the place, when the place is not in the new file.
///
/// A removed line only exists before the change, and the excerpt above it
/// comes from there. Without this a session reads the number against the
/// version it has, and lands on another line.
pub fn before_the_change(comment: &Comment) -> (out: &'static str)
    ensures
        out@ == if comment.anchor matches Some(a) && a.side == Side::Old && a.start_line is Some {
            " (before the change)"@
        } else {
            ""@
        },
{
    match &comment.anchor {
        Some(a) => if a.side == Side::Old && a.start_line.is_some() {
            " (before the change)"
        } else {
            ""
        },
        None => "",
    }
}

/// `s` right-aligned in `width` characters, the way `{:>width$}` writes it.
pub open spec fn pad_left(s: Seq<char>, width: nat) -> Seq<char> {
    if s.len() >= width {
        s
    } else {
        Seq::new((width - s.len()) as nat, |i: int| ' ') + s
    }
}

/// One line of an excerpt: the mark, the number right-aligned, the code.
pub open spec fn excerpt_line(mark: char, number: nat, width: nat, code: Seq<char>) -> Seq<char> {
    seq![mark, ' '] + pad_left(decimal(number), width) + " | "@ + code + seq!['\n']
}

/// The lines `from` to `from + count - 1` of an excerpt, those of
/// `line..=last` marked `>`.
pub open spec fn excerpt_block(
    lines: Seq<Seq<char>>,
    from: nat,
    count: nat,
    line: nat,
    last: nat,
    width: nat,
) -> Seq<char>
    decreases count,
{
    if count == 0 {
        Seq::empty()
    } else {
        let number = (from + count - 1) as nat;
        excerpt_block(lines, from, (count - 1) as nat, line, last, width) + excerpt_line(
            if line <= number && number <= last {
                '>'
            } else {
                ' '
            },
            number,
            width,
            lines[number - 1],
        )
    }
}

/// The lines around the comment, with their real numbers. The lines the
/// comment covers carry a `>` at the left edge, the others a space.
pub open spec fn spec_excerpt(c: Comment, lines: Option<Seq<Seq<char>>>) -> Option<Seq<char>> {
    match (c.anchor, lines) {
        (Some(a), Some(ls)) => match a.start_line {
            None => None,
            Some(line) => {
                let last = match a.end_line {
                    Some(e) => if e > line { e as nat } else { line as nat },
                    None => line as nat,
                };
                let from: nat = if line > CONTEXT + 1 { (line - CONTEXT) as nat } else { 1 };
                let to: nat = if last + CONTEXT <= ls.len() { (last + CONTEXT) as nat } else { ls.len() };
                if from > ls.len() {
                    None
                } else {
                    Some(excerpt_block(ls, from, (to + 1 - from) as nat, line as nat, last, decimal(to).len()))
                }
            },
        },
        _ => None,
    }
}

/// The views of a run of string slices.
pub open spec fn slices_view(v: Seq<&str>) -> Seq<Seq<char>> {
    v.map_values(|s: &str| s@)
}

/// The lines around the comment, with their real numbers.
pub fn excerpt(comment: &Comment, lines: Option<&[&str]>) -> (out: Option<String>)
    ensures
        match out {
            Some(e) => spec_excerpt(*comment, match lines { Some(l) => Some(slices_view(l@)), None => None }) == Some(e@),
            None => spec_excerpt(*comment, match lines { Some(l) => Some(slices_view(l@)), None => None }) is None,
        },
{
    let a = match &comment.anchor {
        None => return None,
        Some(a) => a,
    };
    let ls = match lines {
        None => return None,
        Some(l) => l,
    };
    let line = match a.start_line {
        None => return None,
        Some(s) => s,
    };
    let ghost lv = slices_view(ls@);
    let last = match a.end_line {
        Some(e) => if e > line { e } else { line },
        None => line,
    };
    let n = ls.len();
    let from = if line > CONTEXT + 1 { line - CONTEXT } else { 1 };
    let to = if last <= n && n - last >= CONTEXT { last + CONTEXT } else { n };
    if from > n {
        return None;
    }
    let width = decimal_of(to).len();
    let count = to - from + 1;
    let mut out: Vec<char> = Vec::new();
    let mut i: usize = 0;
    while i < count
        invariant
            i <= count,
            count == to - from + 1,
            from <= to,
            to <= n,
            n == ls@.len(),
            lv == slices_view(ls@),
            from >= 1,
            width == decimal(to as nat).len(),
            out@ == excerpt_block(lv, from as nat, i as nat, line as nat, last as nat, width as nat),
        decreases count - i,
    {
        let number = from + i;
        let mark = if line <= number && number <= last { '>' } else { ' ' };
        let ghost prior = out@;
        out.push(mark);
        out.push(' ');
        let d = decimal_of(number);
        let mut k = d.len();
        while k < width
            invariant
                d@.len() <= k,
                d@.len() >= width ==> k == d@.len(),
                d@.len() < width ==> k <= width,
                out@ == prior + seq![mark, ' '] + Seq::new((k - d@.len()) as nat, |j: int| ' '),
            decreases width - k,
        {
            out.push(' ');
            assert(out@ =~= prior + seq![mark, ' '] + Seq::new((k + 1 - d@.len()) as nat, |j: int| ' '));
            k = k + 1;
        }
        assert(Seq::new((k - d@.len()) as nat, |j: int| ' ') + d@ == pad_left(decimal(number as nat), width as nat)) by {
            if d@.len() >= width {
                assert(Seq::new((k - d@.len()) as nat, |j: int| ' ') + d@ =~= d@);
            } else {
                assert(k == width);
            }
        }
        extend(&mut out, d.as_slice());
        extend_str(&mut out, " | ");
        assert(lv[number - 1] == ls@[number - 1]@);
        extend_str(&mut out, ls[number - 1]);
        out.push('\n');
        assert(excerpt_block(lv, from as nat, (i + 1) as nat, line as nat, last as nat, width as nat)
            == excerpt_block(lv, from as nat, i as nat, line as nat, last as nat, width as nat)
            + excerpt_line(mark, number as nat, width as nat, lv[number - 1]));
        assert(out@ =~= excerpt_block(lv, from as nat, (i + 1) as nat, line as nat, last as nat, width as nat));
        i = i + 1;
    }
    Some(string_of(out.as_slice()))
}

/// What the heading adds when the range opens or closes inside a line.
///
/// The text is quoted, not the columns: the reader can act on `for (;;)`,
/// and a column is a count in units it does not know. Bounds that fall on
/// the ends of the lines say nothing more than the lines do. The offsets
/// count UTF-16 units, the units the browser measured in.
pub open spec fn spec_cut_of(c: Comment, lines: Option<Seq<Seq<char>>>) -> Seq<char> {
    match (c.anchor, lines) {
        (Some(a), Some(ls)) => match (a.start_line, a.start_char, a.end_char) {
            (Some(start), Some(f0), Some(t0)) => {
                let end = match a.end_line {
                    Some(e) => if e > start { e } else { start },
                    None => start,
                };
                let i1 = if start >= 1 { start - 1 } else { 0 };
                let i2 = if end >= 1 { end - 1 } else { 0 };
                if i1 < ls.len() && i2 < ls.len() {
                    let first = utf16_of(ls[i1]);
                    let last = utf16_of(ls[i2]);
                    let from = if f0 <= first.len() { f0 as int } else { first.len() as int };
                    let to = if t0 <= last.len() { t0 as int } else { last.len() as int };
                    if from == 0 && to == last.len() {
                        Seq::empty()
                    } else if start == end {
                        match spec_quote(first, from, if to >= from { to } else { from }) {
                            Some(q) => ", on "@ + q,
                            None => Seq::empty(),
                        }
                    } else {
                        match (spec_quote(first, from, first.len() as int), spec_quote(last, 0, to)) {
                            (Some(h), Some(tl)) => ", from "@ + h + " to "@ + tl,
                            (Some(x), None) => ", on "@ + x,
                            (None, Some(x)) => ", on "@ + x,
                            (None, None) => Seq::empty(),
                        }
                    }
                } else {
                    Seq::empty()
                }
            },
            _ => Seq::empty(),
        },
        _ => Seq::empty(),
    }
}

/// `prefix` and the quote.
fn prefixed(prefix: &str, q: &String) -> (out: String)
    ensures
        out@ == prefix@ + q@,
{
    let mut v = chars_of(prefix);
    extend_str(&mut v, q.as_str());
    string_of(v.as_slice())
}

/// What the heading adds when the range opens or closes inside a line.
pub fn cut_of(comment: &Comment, lines: Option<&[&str]>) -> (out: String)
    ensures
        out@ == spec_cut_of(*comment, match lines { Some(l) => Some(slices_view(l@)), None => None }),
{
    let a = match &comment.anchor {
        None => return String::new(),
        Some(a) => a,
    };
    let ls = match lines {
        None => return String::new(),
        Some(l) => l,
    };
    let ghost lv = slices_view(ls@);
    let (start, f0, t0) = match (a.start_line, a.start_char, a.end_char) {
        (Some(s), Some(f), Some(t)) => (s, f, t),
        _ => return String::new(),
    };
    let end = match a.end_line {
        Some(e) => if e > start { e } else { start },
        None => start,
    };
    let i1 = if start >= 1 { start - 1 } else { 0 };
    let i2 = if end >= 1 { end - 1 } else { 0 };
    if !(i1 < ls.len() && i2 < ls.len()) {
        return String::new();
    }
    assert(lv[i1 as int] == ls@[i1 as int]@);
    assert(lv[i2 as int] == ls@[i2 as int]@);
    let first = utf16_units(ls[i1]);
    let last = utf16_units(ls[i2]);
    let from = if f0 <= first.len() { f0 } else { first.len() };
    let to = if t0 <= last.len() { t0 } else { last.len() };
    if from == 0 && to == last.len() {
        return String::new();
    }
    if start == end {
        let upto = if to >= from { to } else { from };
        return match quote(first.as_slice(), from, upto) {
            Some(q) => prefixed(", on ", &q),
            None => String::new(),
        };
    }
    let n1 = first.len();
    match (quote(first.as_slice(), from, n1), quote(last.as_slice(), 0, to)) {
        (Some(h), Some(tl)) => {
            let mut v = chars_of(", from ");
            extend_str(&mut v, h.as_str());
            extend_str(&mut v, " to ");
            extend_str(&mut v, tl.as_str());
            string_of(v.as_slice())
        },
        (Some(x), None) => prefixed(", on ", &x),
        (None, Some(x)) => prefixed(", on ", &x),
        (None, None) => String::new(),
    }
}

/// The lines of a text trimmed, the empty ones left out, joined by spaces.
pub open spec fn joined_lines(ls: Seq<Seq<char>>) -> Seq<char>
    decreases ls.len(),
{
    if ls.len() == 0 {
        Seq::empty()
    } else {
        let before = joined_lines(ls.drop_last());
        let t = trim(ls.last());
        if t.len() == 0 {
            before
        } else if before.len() == 0 {
            t
        } else {
            before + " "@ + t
        }
    }
}

/// A comment body on one line, so the export stays scannable.
pub fn one_line(body: &str) -> (out: String)
    ensures
        out@ == joined_lines(lines(body@)),
{
    let v = chars_of(body);
    let ls = lines_of(v.as_slice());
    let ghost lv = lines(body@);
    let mut out: Vec<char> = Vec::new();
    let mut i: usize = 0;
    while i < ls.len()
        invariant
            i <= ls@.len(),
            ls@.len() == lv.len(),
            forall|k: int| 0 <= k < ls@.len() ==> #[trigger] ls@[k]@ == lv[k],
            out@ == joined_lines(lv.subrange(0, i as int)),
        decreases ls@.len() - i,
    {
        let ghost sub = lv.subrange(0, i + 1);
        assert(sub.drop_last() == lv.subrange(0, i as int));
        assert(sub.last() == ls@[i as int]@);
        let t = trim_chars(ls[i].as_slice());
        if t.len() > 0 {
            if out.len() > 0 {
                extend_str(&mut out, " ");
            }
            extend(&mut out, t.as_slice());
        }
        i = i + 1;
    }
    assert(lv.subrange(0, lv.len() as int) == lv);
    string_of(out.as_slice())
}

/// The first twelve characters of a hash, the way a person reads one.
pub fn short(hash: &str) -> (out: String)
    ensures
        out@ == crate::series::walk::short(hash@),
{
    let v = chars_of(hash);
    if v.len() <= 12 {
        string_of(v.as_slice())
    } else {
        string_of(slice(v.as_slice(), 0, 12).as_slice())
    }
}

/// What the export knows of one change before its comments.
pub struct Head {
    pub commit: String,
    pub short: String,
    pub subject: String,
    pub about: String,
    pub comments: Vec<Comment>,
    /// The work that is not committed. It has no sha worth printing: the one
    /// it carries is synthetic, and a session cannot look it up.
    pub worktree: bool,
}

impl Head {
    /// What the opening line calls the thing being reviewed.
    pub fn what(&self) -> (out: String)
        ensures
            out@ == if self.worktree {
                "the changes that are not committed"@
            } else {
                "commit "@ + self.short@
            },
    {
        if self.worktree {
            "the changes that are not committed".to_owned()
        } else {
            prefixed("commit ", &self.short)
        }
    }

    /// What names it in the heading of one change of a series.
    pub fn name(&self) -> (out: String)
        ensures
            out@ == if self.worktree {
                "not committed"@
            } else {
                self.short@
            },
    {
        if self.worktree {
            "not committed".to_owned()
        } else {
            crate::text::copy_string(&self.short)
        }
    }
}

/// What a reader of the review is told about the comments.
pub open spec fn rule() -> Seq<char> {
    "Each comment is about the lines marked `>`; the lines around them are\ncontext only."@
}

/// The lines of what the review says about a change, before its comments:
/// its subject, its version and its count, and how many remarks of an
/// earlier version were left out.
pub open spec fn spec_about(subject: Seq<char>, patch_set: usize, worktree: bool, count: usize, earlier: usize) -> Seq<char> {
    "Change: "@ + subject + "\n"@
        + (if worktree { "Not committed yet"@ } else { "Patch set "@ + decimal(patch_set as nat) })
        + " · "@ + decimal(count as nat) + " comment"@ + (if count == 1 { ""@ } else { "s"@ }) + "\n"@
        + (if earlier > 0 {
            decimal(earlier as nat) + " more "@ + (if earlier == 1 { "was"@ } else { "were"@ })
                + " written on an earlier version, and left out here.\n"@
        } else {
            ""@
        })
}

/// What the review says about a change before its comments.
pub fn about(subject: &str, patch_set: usize, worktree: bool, count: usize, earlier: usize) -> (out: String)
    ensures
        out@ == spec_about(subject@, patch_set, worktree, count, earlier),
{
    let mut m = chars_of("Change: ");
    extend_str(&mut m, subject);
    extend_str(&mut m, "\n");
    if worktree {
        extend_str(&mut m, "Not committed yet");
    } else {
        extend_str(&mut m, "Patch set ");
        extend(&mut m, decimal_of(patch_set).as_slice());
    }
    extend_str(&mut m, " · ");
    extend(&mut m, decimal_of(count).as_slice());
    extend_str(&mut m, " comment");
    if count == 1 {
        extend_str(&mut m, "");
    } else {
        extend_str(&mut m, "s");
    }
    extend_str(&mut m, "\n");
    if earlier > 0 {
        extend(&mut m, decimal_of(earlier).as_slice());
        extend_str(&mut m, " more ");
        if earlier == 1 {
            extend_str(&mut m, "was");
        } else {
            extend_str(&mut m, "were");
        }
        extend_str(&mut m, " written on an earlier version, and left out here.\n");
    } else {
        extend_str(&mut m, "");
    }
    string_of(m.as_slice())
}

/// The lines of an excerpt, each indented under its number and ended.
pub open spec fn indented(ls: Seq<Seq<char>>) -> Seq<char>
    decreases ls.len(),
{
    if ls.len() == 0 {
        Seq::empty()
    } else {
        indented(ls.drop_last()) + "   "@ + ls.last() + "\n"@
    }
}

/// The line that numbers a comment and says where it sits.
pub open spec fn spec_comment_head(number: usize, c: Comment, lines_of_file: Option<Seq<Seq<char>>>) -> Seq<char> {
    if c.anchor is Some {
        decimal(number as nat) + ". `"@ + spec_place_of(c) + "`"@
            + (if c.anchor matches Some(a) && a.side == Side::Old && a.start_line is Some {
                " (before the change)"@
            } else {
                ""@
            }) + spec_cut_of(c, lines_of_file) + "\n"@
    } else {
        decimal(number as nat) + ". The change as a whole\n"@
    }
}

/// The code a comment speaks of, fenced and indented under its number.
pub open spec fn spec_excerpt_block(language: Seq<char>, e: Seq<char>) -> Seq<char> {
    "\n"@ + "   ```"@ + language + "\n"@ + indented(lines(e)) + "   ```\n"@
}

/// One comment of the review, numbered, under the code it speaks of.
pub open spec fn spec_comment_text(
    number: usize,
    c: Comment,
    lines_of_file: Option<Seq<Seq<char>>>,
    language: Seq<char>,
) -> Seq<char> {
    "\n"@ + spec_comment_head(number, c, lines_of_file)
        + (match spec_excerpt(c, lines_of_file) {
            Some(e) => spec_excerpt_block(language, e),
            None => ""@,
        })
        + "\n"@ + "   "@ + joined_lines(lines(c.body@)) + "\n"@
}

fn comment_head(number: usize, comment: &Comment, lines_of_file: Option<&[&str]>) -> (out: Vec<char>)
    ensures
        out@ == spec_comment_head(number, *comment, match lines_of_file { Some(l) => Some(slices_view(l@)), None => None }),
{
    let mut m: Vec<char> = Vec::new();
    if comment.anchor.is_some() {
        extend(&mut m, decimal_of(number).as_slice());
        extend_str(&mut m, ". `");
        extend_str(&mut m, place_of(comment).as_str());
        extend_str(&mut m, "`");
        extend_str(&mut m, before_the_change(comment));
        extend_str(&mut m, cut_of(comment, lines_of_file).as_str());
        extend_str(&mut m, "\n");
    } else {
        extend(&mut m, decimal_of(number).as_slice());
        extend_str(&mut m, ". The change as a whole\n");
    }
    m
}

fn excerpt_lines(language: &str, e: &str) -> (out: Vec<char>)
    ensures
        out@ == spec_excerpt_block(language@, e@),
{
    let mut m = chars_of("\n");
    extend_str(&mut m, "   ```");
    extend_str(&mut m, language);
    extend_str(&mut m, "\n");
    let ls = lines_of(chars_of(e).as_slice());
    let ghost lv = lines(e@);
    let ghost head = m@;
    let mut i: usize = 0;
    while i < ls.len()
        invariant
            0 <= i <= ls@.len(),
            ls@.len() == lv.len(),
            forall|k: int| 0 <= k < ls@.len() ==> #[trigger] ls@[k]@ == lv[k],
            m@ == head + indented(lv.take(i as int)),
        decreases ls@.len() - i,
    {
        assert(lv.take(i as int + 1).drop_last() == lv.take(i as int));
        assert(lv.take(i as int + 1).last() == ls@[i as int]@);
        extend_str(&mut m, "   ");
        extend(&mut m, ls[i].as_slice());
        extend_str(&mut m, "\n");
        assert(m@ =~= head + indented(lv.take(i as int + 1)));
        i = i + 1;
    }
    assert(lv.take(ls@.len() as int) == lv);
    extend_str(&mut m, "   ```\n");
    m
}

/// One comment of the review: its number, its place, the code it speaks of
/// and what it says, on one line.
pub fn comment_text(number: usize, comment: &Comment, lines_of_file: Option<&[&str]>, language: &str) -> (out: String)
    ensures
        out@ == spec_comment_text(
            number,
            *comment,
            match lines_of_file { Some(l) => Some(slices_view(l@)), None => None },
            language@,
        ),
{
    let mut m = chars_of("\n");
    let head = comment_head(number, comment, lines_of_file);
    extend(&mut m, head.as_slice());
    match excerpt(comment, lines_of_file) {
        Some(e) => {
            let block = excerpt_lines(language, e.as_str());
            extend(&mut m, block.as_slice());
        },
        None => {
            extend_str(&mut m, "");
        },
    }
    extend_str(&mut m, "\n");
    extend_str(&mut m, "   ");
    extend_str(&mut m, one_line(comment.body.as_str()).as_str());
    extend_str(&mut m, "\n");
    string_of(m.as_slice())
}

/// The opening of the review of one change.
pub open spec fn spec_change_opening(place: Seq<char>, what: Seq<char>, has_comments: bool, about: Seq<char>) -> Seq<char> {
    "## Review: "@ + place + ", "@ + what + "\n"@ + "\n"@
        + "I reviewed this commit and left the comments below. Please address them.\n"@
        + (if has_comments { rule() + "\n"@ } else { ""@ }) + "\n"@ + about
        + (if has_comments { ""@ } else { "\n"@ + "Nothing to report.\n"@ })
}

/// The opening of the review of one change: where it is, what it is, what
/// is asked of the reader, and what the review says about the change. With
/// no comment, it says there is nothing to report.
pub fn change_opening(place: &str, what: &str, has_comments: bool, about: &str) -> (out: String)
    ensures
        out@ == spec_change_opening(place@, what@, has_comments, about@),
{
    let mut m = chars_of("## Review: ");
    extend_str(&mut m, place);
    extend_str(&mut m, ", ");
    extend_str(&mut m, what);
    extend_str(&mut m, "\n");
    extend_str(&mut m, "\n");
    extend_str(&mut m, "I reviewed this commit and left the comments below. Please address them.\n");
    if has_comments {
        extend_str(&mut m, "Each comment is about the lines marked `>`; the lines around them are\ncontext only.");
        extend_str(&mut m, "\n");
    } else {
        extend_str(&mut m, "");
    }
    extend_str(&mut m, "\n");
    extend_str(&mut m, about);
    if has_comments {
        extend_str(&mut m, "");
    } else {
        extend_str(&mut m, "\n");
        extend_str(&mut m, "Nothing to report.\n");
    }
    string_of(m.as_slice())
}

/// The opening of the review of a series of `count` changes.
pub open spec fn spec_series_opening(place: Seq<char>, count: usize) -> Seq<char> {
    "## Review: "@ + place + ", "@ + decimal(count as nat) + " commits\n"@ + "\n"@
        + "I reviewed this series and left the comments below. Please address them.\n"@ + rule() + "\n"@
}

/// The opening of the review of a series.
pub fn series_opening(place: &str, count: usize) -> (out: String)
    ensures
        out@ == spec_series_opening(place@, count),
{
    let mut m = chars_of("## Review: ");
    extend_str(&mut m, place);
    extend_str(&mut m, ", ");
    extend(&mut m, decimal_of(count).as_slice());
    extend_str(&mut m, " commits\n");
    extend_str(&mut m, "\n");
    extend_str(&mut m, "I reviewed this series and left the comments below. Please address them.\n");
    extend_str(&mut m, "Each comment is about the lines marked `>`; the lines around them are\ncontext only.");
    extend_str(&mut m, "\n");
    string_of(m.as_slice())
}

/// The heading of one change inside the review of a series.
pub fn change_heading(name: &str, subject: &str) -> (out: String)
    ensures
        out@ == "\n"@ + "### "@ + name@ + " — "@ + subject@ + "\n"@,
{
    let mut m = chars_of("\n");
    extend_str(&mut m, "### ");
    extend_str(&mut m, name);
    extend_str(&mut m, " — ");
    extend_str(&mut m, subject);
    extend_str(&mut m, "\n");
    string_of(m.as_slice())
}

/// Where a person is: `project@branch`.
pub fn place_name(project: &str, branch: &str) -> (out: String)
    ensures
        out@ == project@ + "@"@ + branch@,
{
    let mut m = chars_of(project);
    extend_str(&mut m, "@");
    extend_str(&mut m, branch);
    string_of(m.as_slice())
}

} // verus!
