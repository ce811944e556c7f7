//! Syntax colors: the classes and the spans of a line.
//!
//! The browser receives rows that already carry their spans. The output is a
//! CSS class, never a color: a theme is a stylesheet. The grammar engine
//! says, op by op, where the scopes of a line change; what the spans of the
//! line are, and what each is called, is decided here.

use vstd::prelude::*;
use std::sync::Arc;
use syntect::parsing::{ClearAmount, ParseState, ScopeStackOp, SyntaxReference, SyntaxSet};
use crate::diff::words::{blen, byte_len};
use crate::model::{Span, SpanView};
use crate::text::{
    chars_of, copy_string, extend_str, find_char, find_char_in, lines_of, rfind_char, rfind_char_in,
    same_str, slice, split, split_chars, starts_with, string_of,
};

verus! {

/// Above this size in bytes, a file is shown without colors: highlighting
/// is linear, but a very large file still costs seconds and megabytes of
/// spans that nobody reads.
pub const MAX_BYTES: usize = 524288;

/// Whether a text is too large to color.
pub fn too_large(text: &str) -> (b: bool)
    ensures
        b == (blen(text@) > MAX_BYTES),
{
    byte_len(text) > MAX_BYTES
}

/// The spans with one more: merged into the last when it ends where the new
/// one starts and has the same class.
pub open spec fn pushed(spans: Seq<SpanView>, start: usize, end: usize, cls: Seq<char>) -> Seq<SpanView> {
    if spans.len() > 0 && spans.last().end == start && spans.last().cls == cls {
        spans.update(spans.len() - 1, SpanView { end, ..spans.last() })
    } else {
        spans.push(SpanView { start, end, cls })
    }
}

/// The views of a run of spans.
pub open spec fn spans_view(v: Seq<Span>) -> Seq<SpanView> {
    v.map_values(|s: Span| s@)
}

/// Add a span, merging it into the one before when the class is the same.
pub fn push(spans: &mut Vec<Span>, start: usize, end: usize, cls: String)
    ensures
        spans_view(final(spans)@) == pushed(spans_view(old(spans)@), start, end, cls@),
{
    let n = spans.len();
    if n > 0 && spans[n - 1].end == start && same_str(spans[n - 1].cls.as_str(), cls.as_str()) {
        let last = spans.pop().unwrap();
        let ghost before = spans_view(old(spans)@);
        spans.push(Span { start: last.start, end, cls: last.cls });
        assert(spans_view(spans@) =~= before.update(before.len() - 1, SpanView { end, ..before.last() }));
    } else {
        spans.push(Span { start, end, cls });
        assert(spans_view(spans@) =~= spans_view(old(spans)@).push(SpanView { start, end, cls: cls@ }));
    }
}

/// The scopes that say nothing about a token: `source.c` is on every line.
pub open spec fn is_generic(atom: Seq<char>) -> bool {
    atom == "source"@ || atom == "text"@ || atom == "meta"@
}

/// The class of one scope name: `tok-` before its first atom, and before its
/// second when it has one. Every class is prefixed, since a scope atom is an
/// ordinary English word and so are the utilities of the interface's
/// stylesheet framework.
pub open spec fn class_of_name(name: Seq<char>) -> Seq<char> {
    let atoms = split(name, '.');
    if atoms.len() >= 2 {
        "tok-"@ + atoms[0] + " tok-"@ + atoms[1]
    } else {
        "tok-"@ + atoms[0]
    }
}

/// The class of the most specific scope that says something, the scopes
/// listed from the outermost to the innermost.
pub open spec fn spec_class_of(names: Seq<Seq<char>>) -> Option<Seq<char>>
    decreases names.len(),
{
    if names.len() == 0 {
        None
    } else if !is_generic(split(names.last(), '.')[0]) {
        Some(class_of_name(names.last()))
    } else {
        spec_class_of(names.drop_last())
    }
}

/// The texts of a run of strings.
pub open spec fn names_view(v: Seq<String>) -> Seq<Seq<char>> {
    v.map_values(|s: String| s@)
}

/// The class of a stack of scopes, given by their names from the outermost
/// to the innermost.
pub fn class_of(names: &Vec<String>) -> (out: Option<String>)
    ensures
        match out {
            Some(c) => spec_class_of(names_view(names@)) == Some(c@),
            None => spec_class_of(names_view(names@)) is None,
        },
{
    let ghost nv = names_view(names@);
    let mut i: usize = names.len();
    assert(nv.take(nv.len() as int) == nv);
    while i > 0
        invariant
            0 <= i <= names@.len(),
            nv == names_view(names@),
            spec_class_of(nv) == spec_class_of(nv.take(i as int)),
        decreases i,
    {
        let ghost t = nv.take(i as int);
        assert(t.last() == names@[i - 1]@);
        assert(t.drop_last() == nv.take(i - 1));
        let atoms = split_chars(chars_of(names[i - 1].as_str()).as_slice(), '.');
        let first = string_of(atoms[0].as_slice());
        if !(same_str(first.as_str(), "source") || same_str(first.as_str(), "text") || same_str(first.as_str(), "meta")) {
            let mut c = chars_of("tok-");
            crate::text::extend(&mut c, atoms[0].as_slice());
            if atoms.len() >= 2 {
                extend_str(&mut c, " tok-");
                crate::text::extend(&mut c, atoms[1].as_slice());
            }
            return Some(string_of(c.as_slice()));
        }
        i = i - 1;
    }
    assert(nv.take(0) =~= Seq::<Seq<char>>::empty());
    None
}

/// One op of the grammar engine on a line: where it stands, the class of the
/// scopes before it, and whether the stack took it.
#[derive(Clone, Debug)]
pub struct Step {
    pub pos: usize,
    pub class: Option<String>,
    pub applied: bool,
}

/// A step, with its class as characters.
pub struct StepView {
    pub pos: usize,
    pub class: Option<Seq<char>>,
    pub applied: bool,
}

impl View for Step {
    type V = StepView;

    open spec fn view(&self) -> StepView {
        StepView { pos: self.pos, class: crate::model::opt_view(self.class), applied: self.applied }
    }
}

/// The views of a run of steps.
pub open spec fn steps_view(v: Seq<Step>) -> Seq<StepView> {
    v.map_values(|s: Step| s@)
}

/// What the walk over the steps holds: the spans so far, where the last one
/// ended, and whether a step the stack refused stopped it.
pub open spec fn walk_steps(end: usize, steps: Seq<StepView>) -> (Seq<SpanView>, usize, bool)
    decreases steps.len(),
{
    if steps.len() == 0 {
        (Seq::empty(), 0, false)
    } else {
        let (spans, last, stopped) = walk_steps(end, steps.drop_last());
        if stopped {
            (spans, last, stopped)
        } else {
            let s = steps.last();
            let pos = if s.pos < end { s.pos } else { end };
            let spans2 = if pos > last && s.class is Some {
                pushed(spans, last, pos, s.class->0)
            } else {
                spans
            };
            if !s.applied {
                (spans2, last, true)
            } else {
                (spans2, if pos > last { pos } else { last }, false)
            }
        }
    }
}

/// The spans of a line: between two ops, the class of the scopes there;
/// after the last op, the class of the scopes left, up to the end of the
/// text. A grammar that breaks on an op leaves the rest of the line plain
/// but for that tail.
pub open spec fn spec_spans_of(end: usize, steps: Seq<StepView>, after: Option<Seq<char>>) -> Seq<SpanView> {
    let (spans, last, _) = walk_steps(end, steps);
    if last < end && after is Some {
        pushed(spans, last, end, after->0)
    } else {
        spans
    }
}

/// The spans of one line, from the ops of the grammar engine and the class
/// of the scopes it left.
pub fn spans_of(end: usize, steps: &Vec<Step>, after: Option<String>) -> (out: Vec<Span>)
    ensures
        spans_view(out@) == spec_spans_of(end, steps_view(steps@), crate::model::opt_view(after)),
{
    let ghost sv = steps_view(steps@);
    let mut spans: Vec<Span> = Vec::new();
    let mut last: usize = 0;
    let mut stopped = false;
    let mut i: usize = 0;
    while i < steps.len()
        invariant
            0 <= i <= steps@.len(),
            sv == steps_view(steps@),
            walk_steps(end, sv.take(i as int)) == (spans_view(spans@), last, stopped),
        decreases steps@.len() - i,
    {
        assert(sv.take(i as int + 1).drop_last() == sv.take(i as int));
        assert(sv.take(i as int + 1).last() == steps@[i as int]@);
        if !stopped {
            let s = &steps[i];
            let pos = if s.pos < end { s.pos } else { end };
            if pos > last {
                match &s.class {
                    Some(c) => push(&mut spans, last, pos, copy_string(c)),
                    None => {},
                }
            }
            if !s.applied {
                stopped = true;
            } else if pos > last {
                last = pos;
            }
        }
        i = i + 1;
    }
    assert(sv.take(steps@.len() as int) == sv);
    if last < end {
        match after {
            Some(c) => push(&mut spans, last, end, c),
            None => {},
        }
    }
    spans
}

/// The end of the text of a line, in bytes: the newline is not part of the
/// row text the interface shows.
pub open spec fn spec_end_of_text(line: Seq<char>) -> nat {
    blen(trim_end_newlines(line))
}

/// A line without the newline characters at its end.
pub open spec fn trim_end_newlines(s: Seq<char>) -> Seq<char>
    decreases s.len(),
{
    if s.len() > 0 && (s.last() == '\n' || s.last() == '\r') {
        trim_end_newlines(s.drop_last())
    } else {
        s
    }
}

/// Where the text of a line ends, in bytes.
pub fn end_of_text(line: &str) -> (n: usize)
    ensures
        n == spec_end_of_text(line@),
{
    let v = chars_of(line);
    let mut k: usize = v.len();
    assert(v@.take(v@.len() as int) == v@);
    while k > 0 && (v[k - 1] == '\n' || v[k - 1] == '\r')
        invariant
            0 <= k <= v@.len(),
            v@ == line@,
            trim_end_newlines(line@) == trim_end_newlines(v@.take(k as int)),
        decreases k,
    {
        assert(v@.take(k as int).drop_last() == v@.take(k - 1));
        k = k - 1;
    }
    let t = string_of(slice(v.as_slice(), 0, k).as_slice());
    assert(v@.subrange(0, k as int) == v@.take(k as int));
    byte_len(t.as_str())
}

/// The extension a path ends in, after the last dot of its last part, or
/// nothing.
pub open spec fn spec_extension(path: Seq<char>) -> Seq<char> {
    let name = match rfind_char(path, '/') {
        Some(i) => path.subrange(i + 1, path.len() as int),
        None => path,
    };
    match rfind_char(name, '.') {
        Some(j) => name.subrange(j + 1, name.len() as int),
        None => Seq::empty(),
    }
}

/// The extension of a path, which the grammar engine is asked by when the
/// map named no language.
pub fn extension(path: &str) -> (out: String)
    ensures
        out@ == spec_extension(path@),
{
    let v = chars_of(path);
    let n = v.len();
    let name = match rfind_char_in(v.as_slice(), '/') {
        Some(i) => slice(v.as_slice(), i + 1, n),
        None => slice(v.as_slice(), 0, n),
    };
    assert(v@.subrange(0, n as int) == v@);
    let m = name.len();
    match rfind_char_in(name.as_slice(), '.') {
        Some(j) => string_of(slice(name.as_slice(), j + 1, m).as_slice()),
        None => string_of(Vec::<char>::new().as_slice()),
    }
}

/// Spans in order, none empty, none overlapping the next, all before `bound`.
pub open spec fn well_laid(spans: Seq<SpanView>, bound: nat) -> bool {
    &&& forall|k: int| 0 <= k < spans.len() ==> (#[trigger] spans[k]).start < spans[k].end && spans[k].end <= bound
    &&& forall|k: int, j: int| 0 <= k < j < spans.len() ==> (#[trigger] spans[k]).end <= (#[trigger] spans[j]).start
}

proof fn lemma_pushed_well_laid(spans: Seq<SpanView>, last: usize, end: usize, cls: Seq<char>)
    requires
        well_laid(spans, last as nat),
        last < end,
    ensures
        well_laid(pushed(spans, last, end, cls), end as nat),
{
    let p = pushed(spans, last, end, cls);
    if spans.len() > 0 && spans.last().end == last && spans.last().cls == cls {
        assert forall|k: int, j: int| 0 <= k < j < p.len() implies (#[trigger] p[k]).end <= (#[trigger] p[j]).start by {
            assert(p[k] == spans[k]);
            if j < spans.len() - 1 {
                assert(p[j] == spans[j]);
            } else {
                assert(p[j].start == spans[j].start);
            }
        }
    } else {
        assert forall|k: int, j: int| 0 <= k < j < p.len() implies (#[trigger] p[k]).end <= (#[trigger] p[j]).start by {
            assert(p[k] == spans[k]);
            if j < spans.len() {
                assert(p[j] == spans[j]);
            }
        }
    }
}

proof fn lemma_walk_well_laid(end: usize, steps: Seq<StepView>)
    requires
        forall|k: int| 0 <= k < steps.len() ==> (#[trigger] steps[k]).applied,
    ensures
        !walk_steps(end, steps).2,
        walk_steps(end, steps).1 <= end,
        well_laid(walk_steps(end, steps).0, walk_steps(end, steps).1 as nat),
    decreases steps.len(),
{
    if steps.len() > 0 {
        assert forall|k: int| 0 <= k < steps.drop_last().len() implies (#[trigger] steps.drop_last()[k]).applied by {
            assert(steps.drop_last()[k] == steps[k]);
        }
        lemma_walk_well_laid(end, steps.drop_last());
        let (spans, last, stopped) = walk_steps(end, steps.drop_last());
        assert(steps.last().applied);
        if !stopped {
            let st = steps.last();
            let pos = if st.pos < end { st.pos } else { end };
            if pos > last && st.class is Some {
                lemma_pushed_well_laid(spans, last, pos, st.class->0);
            } else if pos > last {
                assert(well_laid(spans, pos as nat));
            }
        }
    }
}

/// The spans of a line lie inside its text, in order, none empty and none
/// overlapping the next: the newline is never inside a span, and every span
/// is a range of the line's own text. This holds when the scope stack took
/// every op of the line.
pub proof fn law_spans_stay_in_the_text(end: usize, steps: Seq<StepView>, after: Option<Seq<char>>)
    requires
        forall|k: int| 0 <= k < steps.len() ==> (#[trigger] steps[k]).applied,
    ensures
        well_laid(spec_spans_of(end, steps, after), end as nat),
{
    lemma_walk_well_laid(end, steps);
    let (spans, last, _) = walk_steps(end, steps);
    if last < end && after is Some {
        lemma_pushed_well_laid(spans, last, end, after->0);
    }
}

/// The lines of a text, each with the newline that ends it; the last one
/// without, when the text does not end in one. What `LinesWithEndings`
/// yields.
pub open spec fn lines_with_endings(s: Seq<char>) -> Seq<Seq<char>>
    decreases s.len(),
{
    if s.len() == 0 {
        Seq::empty()
    } else {
        let cut = match find_char(s, '\n') {
            Some(i) => i + 1,
            None => s.len() as int,
        };
        if 0 < cut <= s.len() {
            seq![s.subrange(0, cut)] + lines_with_endings(s.subrange(cut, s.len() as int))
        } else {
            Seq::empty()
        }
    }
}

/// The lines of a text, each with its newline.
pub fn split_lines(text: &str) -> (out: Vec<String>)
    ensures
        names_view(out@) == lines_with_endings(text@),
{
    let v = chars_of(text);
    let n = v.len();
    let mut out: Vec<String> = Vec::new();
    let mut start: usize = 0;
    assert(v@.subrange(0, n as int) =~= v@);
    assert(names_view(out@) + lines_with_endings(text@) =~= lines_with_endings(text@));
    while start < n
        invariant
            0 <= start <= n,
            n == v@.len(),
            v@ == text@,
            lines_with_endings(text@) == names_view(out@) + lines_with_endings(v@.subrange(start as int, n as int)),
        decreases n - start,
    {
        let rest = slice(v.as_slice(), start, n);
        let rs = rest.as_slice();
        let m = rs.len();
        let cut = match find_char_in(rs, '\n') {
            Some(i) => i + 1,
            None => m,
        };
        let piece = slice(rs, 0, cut);
        let ghost r = v@.subrange(start as int, n as int);
        assert(rest@ == r);
        assert(r.subrange(cut as int, r.len() as int) == v@.subrange(start + cut, n as int));
        assert(lines_with_endings(r) == seq![r.subrange(0, cut as int)] + lines_with_endings(v@.subrange(start + cut, n as int)));
        let ghost before = names_view(out@);
        out.push(string_of(piece.as_slice()));
        assert(names_view(out@) =~= before.push(piece@));
        assert(before.push(piece@) + lines_with_endings(v@.subrange(start + cut, n as int))
            =~= before + (seq![piece@] + lines_with_endings(v@.subrange(start + cut, n as int))));
        start = start + cut;
    }
    assert(v@.subrange(n as int, n as int) =~= Seq::<char>::empty());
    assert(names_view(out@) + Seq::<Seq<char>>::empty() =~= names_view(out@));
    out
}

/// Whether every class of the spans carries the prefix.
pub open spec fn prefixed(spans: Seq<SpanView>) -> bool {
    forall|k: int| 0 <= k < spans.len() ==> starts_with(#[trigger] spans[k].cls, "tok-"@)
}

/// Whether a class, when there is one, carries the prefix.
pub open spec fn class_prefixed(c: Option<Seq<char>>) -> bool {
    c matches Some(x) ==> starts_with(x, "tok-"@)
}

proof fn lemma_class_prefixed(names: Seq<Seq<char>>)
    ensures
        class_prefixed(spec_class_of(names)),
    decreases names.len(),
{
    if names.len() > 0 {
        lemma_class_prefixed(names.drop_last());
        let p = "tok-"@;
        let atoms = split(names.last(), '.');
        if atoms.len() >= 2 {
            let c = p + atoms[0] + " tok-"@ + atoms[1];
            assert(c.subrange(0, p.len() as int) =~= p);
        } else {
            let c = p + atoms[0];
            assert(c.subrange(0, p.len() as int) =~= p);
        }
    }
}

proof fn lemma_pushed_prefixed(spans: Seq<SpanView>, start: usize, end: usize, cls: Seq<char>)
    requires
        prefixed(spans),
        starts_with(cls, "tok-"@),
    ensures
        prefixed(pushed(spans, start, end, cls)),
{
    let p = pushed(spans, start, end, cls);
    assert forall|k: int| 0 <= k < p.len() implies starts_with(#[trigger] p[k].cls, "tok-"@) by {
        if k < spans.len() {
            assert(p[k].cls == spans[k].cls);
        }
    }
}

proof fn lemma_walk_prefixed(end: usize, steps: Seq<StepView>)
    requires
        forall|k: int| 0 <= k < steps.len() ==> class_prefixed((#[trigger] steps[k]).class),
    ensures
        prefixed(walk_steps(end, steps).0),
    decreases steps.len(),
{
    if steps.len() > 0 {
        assert forall|k: int| 0 <= k < steps.drop_last().len() implies class_prefixed((#[trigger] steps.drop_last()[k]).class) by {
            assert(steps.drop_last()[k] == steps[k]);
        }
        lemma_walk_prefixed(end, steps.drop_last());
        let (spans, last, stopped) = walk_steps(end, steps.drop_last());
        let st = steps.last();
        assert(class_prefixed(st.class));
        let pos = if st.pos < end { st.pos } else { end };
        if !stopped && pos > last && st.class is Some {
            lemma_pushed_prefixed(spans, last, pos, st.class->0);
        }
    }
}

/// One change of the scopes, as the grammar engine reports it: a scope
/// opens (by its name), some close, the top ones are cleared away for a
/// while, the last cleared come back, or nothing happens.
#[derive(Clone, Debug)]
pub enum Op {
    Push(String),
    Pop(usize),
    ClearTop(usize),
    ClearAll,
    Restore,
    Noop,
}

/// An op, with the name it opens as characters.
pub enum OpView {
    Push(Seq<char>),
    Pop(usize),
    ClearTop(usize),
    ClearAll,
    Restore,
    Noop,
}

impl View for Op {
    type V = OpView;

    open spec fn view(&self) -> OpView {
        match self {
            Op::Push(n) => OpView::Push(n@),
            Op::Pop(k) => OpView::Pop(*k),
            Op::ClearTop(k) => OpView::ClearTop(*k),
            Op::ClearAll => OpView::ClearAll,
            Op::Restore => OpView::Restore,
            Op::Noop => OpView::Noop,
        }
    }
}

/// The ops of a line, each at its byte position.
pub open spec fn ops_view(v: Seq<(usize, Op)>) -> Seq<(usize, OpView)> {
    v.map_values(|o: (usize, Op)| (o.0, o.1@))
}

/// The scopes open at a point of a file, from the outermost to the
/// innermost, and the runs of scopes a clear took away, the last cleared at
/// the end.
pub struct Scopes {
    pub names: Vec<String>,
    pub cleared: Vec<Vec<String>>,
}

/// The scopes as plain values.
pub struct ScopesView {
    pub names: Seq<Seq<char>>,
    pub cleared: Seq<Seq<Seq<char>>>,
}

impl View for Scopes {
    type V = ScopesView;

    open spec fn view(&self) -> ScopesView {
        ScopesView { names: names_view(self.names@), cleared: self.cleared@.map_values(|c: Vec<String>| names_view(c@)) }
    }
}

/// What an op does to the scopes, as `ScopeStack::apply` does it: nothing
/// when a restore finds nothing cleared, which the stack refuses.
pub open spec fn spec_apply(s: ScopesView, op: OpView) -> Option<ScopesView> {
    match op {
        OpView::Push(n) => Some(ScopesView { names: s.names.push(n), ..s }),
        OpView::Pop(k) => {
            let gone = if k <= s.names.len() { k as int } else { s.names.len() as int };
            Some(ScopesView { names: s.names.take(s.names.len() - gone), ..s })
        },
        OpView::ClearTop(k) => {
            let gone = if k <= s.names.len() { k as int } else { s.names.len() as int };
            let leave = s.names.len() - gone;
            Some(ScopesView { names: s.names.take(leave), cleared: s.cleared.push(s.names.skip(leave)) })
        },
        OpView::ClearAll => Some(ScopesView { names: Seq::empty(), cleared: s.cleared.push(s.names) }),
        OpView::Restore => if s.cleared.len() == 0 {
            None
        } else {
            Some(ScopesView { names: s.names + s.cleared.last(), cleared: s.cleared.drop_last() })
        },
        OpView::Noop => Some(s),
    }
}

/// No scope open and nothing cleared.
pub fn no_scopes() -> (s: Scopes)
    ensures
        s@ == (ScopesView { names: Seq::empty(), cleared: Seq::empty() }),
{
    let s = Scopes { names: Vec::new(), cleared: Vec::new() };
    assert(s@.names =~= Seq::empty());
    assert(s@.cleared =~= Seq::empty());
    s
}

/// Apply one op to the scopes: false, and the scopes as they were, when
/// the op is a restore with nothing cleared.
pub fn apply(scopes: &mut Scopes, op: &Op) -> (ok: bool)
    ensures
        match spec_apply(old(scopes)@, op@) {
            Some(n) => ok && final(scopes)@ == n,
            None => !ok && final(scopes)@ == old(scopes)@,
        },
{
    let ghost s0 = scopes@;
    match op {
        Op::Push(n) => {
            scopes.names.push(copy_string(n));
            assert(scopes@.names =~= s0.names.push(n@));
            assert(scopes@.cleared =~= s0.cleared);
            true
        },
        Op::Pop(k) => {
            let mut j: usize = 0;
            while j < *k && scopes.names.len() > 0
                invariant
                    j <= *k,
                    scopes@.cleared == s0.cleared,
                    j <= s0.names.len(),
                    scopes.names@.len() == s0.names.len() - j,
                    scopes@.names == s0.names.take(s0.names.len() - j),
                decreases *k - j,
            {
                let ghost before = scopes@.names;
                scopes.names.pop();
                assert(scopes@.names =~= before.drop_last());
                assert(scopes@.names =~= s0.names.take(s0.names.len() - (j + 1)));
                j = j + 1;
            }
            assert(scopes@.names =~= spec_apply(s0, op@)->0.names);
            true
        },
        Op::ClearTop(k) => {
            let n = scopes.names.len();
            let leave = if *k <= n { n - *k } else { 0 };
            let mut top: Vec<String> = Vec::new();
            let mut j: usize = leave;
            while j < n
                invariant
                    leave <= j <= n,
                    n == scopes.names@.len(),
                    scopes@ == s0,
                    names_view(top@) == s0.names.subrange(leave as int, j as int),
                decreases n - j,
            {
                let ghost before = names_view(top@);
                top.push(copy_string(&scopes.names[j]));
                assert(names_view(top@) =~= before.push(s0.names[j as int]));
                assert(s0.names.subrange(leave as int, j + 1) =~= s0.names.subrange(leave as int, j as int).push(s0.names[j as int]));
                j = j + 1;
            }
            let mut m: usize = n;
            while m > leave
                invariant
                    leave <= m <= n,
                    n == s0.names.len(),
                    scopes@.cleared == s0.cleared,
                    scopes@.names == s0.names.take(m as int),
                    scopes.names@.len() == m,
                decreases m,
            {
                let ghost before = scopes@.names;
                scopes.names.pop();
                assert(scopes@.names =~= before.drop_last());
                assert(scopes@.names =~= s0.names.take(m - 1));
                m = m - 1;
            }
            let ghost tv = names_view(top@);
            scopes.cleared.push(top);
            assert(scopes@.cleared =~= s0.cleared.push(tv));
            assert(tv =~= s0.names.skip(leave as int));
            true
        },
        Op::ClearAll => {
            let mut taken: Vec<String> = Vec::new();
            std::mem::swap(&mut taken, &mut scopes.names);
            assert(names_view(taken@) == s0.names);
            scopes.cleared.push(taken);
            assert(scopes@.cleared =~= s0.cleared.push(s0.names));
            assert(scopes@.names =~= Seq::empty());
            true
        },
        Op::Restore => {
            match scopes.cleared.pop() {
                None => {
                    assert(scopes@.cleared =~= s0.cleared);
                    false
                },
                Some(back) => {
                    assert(names_view(back@) == s0.cleared.last());
                    assert(scopes@.cleared =~= s0.cleared.drop_last());
                    let mut j: usize = 0;
                    while j < back.len()
                        invariant
                            j <= back@.len(),
                            scopes@.cleared == s0.cleared.drop_last(),
                            scopes@.names == s0.names + names_view(back@).take(j as int),
                        decreases back@.len() - j,
                    {
                        let ghost before = scopes@.names;
                        scopes.names.push(copy_string(&back[j]));
                        assert(scopes@.names =~= before.push(back@[j as int]@));
                        assert(names_view(back@).take(j + 1) =~= names_view(back@).take(j as int).push(back@[j as int]@));
                        assert(scopes@.names =~= s0.names + names_view(back@).take(j + 1));
                        j = j + 1;
                    }
                    assert(names_view(back@).take(back@.len() as int) =~= names_view(back@));
                    true
                },
            }
        },
        Op::Noop => true,
    }
}

/// The steps of a line's ops from the scopes it starts with: each op stands
/// where it is reported, with the class of the scopes before it, until one
/// is refused; and the scopes after them.
pub open spec fn walk_ops(ops: Seq<(usize, OpView)>, s: ScopesView) -> (Seq<StepView>, ScopesView, bool)
    decreases ops.len(),
{
    if ops.len() == 0 {
        (Seq::empty(), s, false)
    } else {
        let (steps, now, stopped) = walk_ops(ops.drop_last(), s);
        if stopped {
            (steps, now, stopped)
        } else {
            let (pos, op) = ops.last();
            let class = spec_class_of(now.names);
            match spec_apply(now, op) {
                Some(next) => (steps.push(StepView { pos, class, applied: true }), next, false),
                None => (steps.push(StepView { pos, class, applied: false }), now, true),
            }
        }
    }
}

/// What the grammar engine answered for a line, as plain values.
pub open spec fn answer_of(parsed: Option<Vec<(usize, Op)>>) -> Option<Seq<(usize, OpView)>> {
    match parsed {
        Some(ops) => Some(ops_view(ops@)),
        None => None,
    }
}

/// The spans of a line of text from its ops and the scopes it starts with,
/// and the scopes it leaves to the next line.
pub open spec fn line_spans(line: Seq<char>, ops: Seq<(usize, OpView)>, s: ScopesView) -> (Seq<SpanView>, ScopesView) {
    let end = spec_end_of_text(line) as usize;
    let (steps, after, _) = walk_ops(ops, s);
    (spec_spans_of(end, steps, spec_class_of(after.names)), after)
}

/// The spans of every line, from what the grammar engine answered for each
/// (nothing for a line it failed on, which gets no span and leaves the
/// scopes as they were), the scopes carried from line to line, starting
/// with none.
pub open spec fn file_spans(lines: Seq<Seq<char>>, answers: Seq<Option<Seq<(usize, OpView)>>>) -> (Seq<Seq<SpanView>>, ScopesView)
    decreases lines.len(),
{
    if lines.len() == 0 || answers.len() == 0 {
        (Seq::empty(), ScopesView { names: Seq::empty(), cleared: Seq::empty() })
    } else {
        let (done, s) = file_spans(lines.drop_last(), answers.drop_last());
        match answers.last() {
            None => (done.push(Seq::empty()), s),
            Some(ops) => {
                let (spans, next) = line_spans(lines.last(), ops, s);
                (done.push(spans), next)
            },
        }
    }
}

proof fn lemma_walk_ops_prefixed(ops: Seq<(usize, OpView)>, s: ScopesView)
    ensures
        forall|k: int| 0 <= k < walk_ops(ops, s).0.len() ==> class_prefixed((#[trigger] walk_ops(ops, s).0[k]).class),
    decreases ops.len(),
{
    if ops.len() > 0 {
        lemma_walk_ops_prefixed(ops.drop_last(), s);
        let (steps, now, stopped) = walk_ops(ops.drop_last(), s);
        lemma_class_prefixed(now.names);
    }
}

proof fn lemma_line_spans_prefixed(line: Seq<char>, ops: Seq<(usize, OpView)>, s: ScopesView)
    ensures
        prefixed(line_spans(line, ops, s).0),
{
    let end = spec_end_of_text(line) as usize;
    let (steps, after, _) = walk_ops(ops, s);
    lemma_walk_ops_prefixed(ops, s);
    lemma_walk_prefixed(end, steps);
    lemma_class_prefixed(after.names);
    let (spans, last, _) = walk_steps(end, steps);
    if last < end && spec_class_of(after.names) is Some {
        lemma_pushed_prefixed(spans, last, end, spec_class_of(after.names)->0);
    }
}

proof fn lemma_file_spans_prefixed(lines: Seq<Seq<char>>, answers: Seq<Option<Seq<(usize, OpView)>>>)
    ensures
        forall|k: int| 0 <= k < file_spans(lines, answers).0.len() ==> prefixed(#[trigger] file_spans(lines, answers).0[k]),
        file_spans(lines, answers).0.len() == if lines.len() <= answers.len() { lines.len() } else { answers.len() },
    decreases lines.len(),
{
    if lines.len() > 0 && answers.len() > 0 {
        lemma_file_spans_prefixed(lines.drop_last(), answers.drop_last());
        let (done, s) = file_spans(lines.drop_last(), answers.drop_last());
        match answers.last() {
            None => {
                assert(prefixed(Seq::<SpanView>::empty()));
            },
            Some(ops) => {
                lemma_line_spans_prefixed(lines.last(), ops, s);
            },
        }
        let f = file_spans(lines, answers).0;
        assert forall|k: int| 0 <= k < f.len() implies prefixed(#[trigger] f[k]) by {
            if k < done.len() {
                assert(f[k] == done[k]);
            }
        }
    }
}

/// The grammars of the engine.
#[verifier::external_type_specification]
#[verifier::external_body]
pub struct ExSyntaxSet(SyntaxSet);

/// One grammar of the engine.
#[verifier::external_type_specification]
#[verifier::external_body]
pub struct ExSyntaxReference(SyntaxReference);

/// Where the parser of a file stands between two lines.
#[verifier::external_type_specification]
#[verifier::external_body]
pub struct ExParseState(ParseState);

/// What `SyntaxSet` two-face bundles: the syntaxes of `bat`, with the
/// newlines kept.
///
/// Calls `two_face::syntax::extra_newlines`. Nothing is said of the set.
#[verifier::external_body]
fn bundled() -> (set: SyntaxSet) {
    two_face::syntax::extra_newlines()
}

/// The syntax a token names in a set of grammars: by extension, then by
/// name, ignoring case (`SyntaxSet::find_syntax_by_token`).
pub uninterp spec fn token_syntax(set: SyntaxSet, token: Seq<char>) -> Option<SyntaxReference>;

/// The syntax an extension names (`SyntaxSet::find_syntax_by_extension`).
pub uninterp spec fn extension_syntax(set: SyntaxSet, ext: Seq<char>) -> Option<SyntaxReference>;

/// The syntax the first line of a file names, such as a shebang
/// (`SyntaxSet::find_syntax_by_first_line`).
pub uninterp spec fn first_line_syntax(set: SyntaxSet, line: Seq<char>) -> Option<SyntaxReference>;

/// The syntax of a name (`SyntaxSet::find_syntax_by_name`).
pub uninterp spec fn name_syntax(set: SyntaxSet, name: Seq<char>) -> Option<SyntaxReference>;

/// Whether a syntax is one of the set's own: every lookup answers with a
/// reference into the set it was asked.
pub uninterp spec fn syntax_in(set: SyntaxSet, syntax: SyntaxReference) -> bool;

/// The parser state at the start of a file of a syntax (`ParseState::new`).
pub uninterp spec fn start_state(syntax: SyntaxReference) -> ParseState;

/// Whether a parser state belongs to a set of grammars: it was started
/// from one of the set's syntaxes and only ever parsed with that set.
pub uninterp spec fn state_in(set: SyntaxSet, state: ParseState) -> bool;

/// The ops the parser answers for a line from a state, as plain values, or
/// nothing when the grammar fails on the line (`ParseState::parse_line`).
pub uninterp spec fn grammar_ops(state: ParseState, line: Seq<char>, set: SyntaxSet) -> Option<Seq<(usize, OpView)>>;

/// The state the parser is left in after a line, whether the line parsed
/// or not.
pub uninterp spec fn next_state(state: ParseState, line: Seq<char>, set: SyntaxSet) -> ParseState;

/// The syntax a token names: by extension, then by name.
///
/// Calls `SyntaxSet::find_syntax_by_token`. The answer is named
/// `token_syntax`; a syntax it finds is one of the set's own.
#[verifier::external_body]
fn by_token<'a>(set: &'a SyntaxSet, token: &str) -> (out: Option<&'a SyntaxReference>)
    ensures
        match out {
            Some(s) => token_syntax(*set, token@) == Some(*s) && syntax_in(*set, *s),
            None => token_syntax(*set, token@) is None,
        },
{
    set.find_syntax_by_token(token)
}

/// The syntax an extension names.
///
/// Calls `SyntaxSet::find_syntax_by_extension`. The answer is named
/// `extension_syntax`; a syntax it finds is one of the set's own.
#[verifier::external_body]
fn by_extension<'a>(set: &'a SyntaxSet, ext: &str) -> (out: Option<&'a SyntaxReference>)
    ensures
        match out {
            Some(s) => extension_syntax(*set, ext@) == Some(*s) && syntax_in(*set, *s),
            None => extension_syntax(*set, ext@) is None,
        },
{
    set.find_syntax_by_extension(ext)
}

/// The syntax the first line of a file names, such as a shebang.
///
/// Calls `SyntaxSet::find_syntax_by_first_line`. The answer is named
/// `first_line_syntax`; a syntax it finds is one of the set's own.
#[verifier::external_body]
fn by_first_line<'a>(set: &'a SyntaxSet, line: &str) -> (out: Option<&'a SyntaxReference>)
    ensures
        match out {
            Some(s) => first_line_syntax(*set, line@) == Some(*s) && syntax_in(*set, *s),
            None => first_line_syntax(*set, line@) is None,
        },
{
    set.find_syntax_by_first_line(line)
}

/// The syntax of a name, such as `Plain Text`.
///
/// Calls `SyntaxSet::find_syntax_by_name`. The answer is named
/// `name_syntax`; a syntax it finds is one of the set's own.
#[verifier::external_body]
fn by_name<'a>(set: &'a SyntaxSet, name: &str) -> (out: Option<&'a SyntaxReference>)
    ensures
        match out {
            Some(s) => name_syntax(*set, name@) == Some(*s) && syntax_in(*set, *s),
            None => name_syntax(*set, name@) is None,
        },
{
    set.find_syntax_by_name(name)
}

/// The parser state at the start of a file of a syntax of `set`.
///
/// Calls `ParseState::new`. The state is named `start_state`, and it
/// belongs to the set the syntax came from, which is the only set it may be
/// parsed with. `set` is taken for that and nothing else.
#[verifier::external_body]
fn start_of(set: &SyntaxSet, syntax: &SyntaxReference) -> (out: ParseState)
    requires
        syntax_in(*set, *syntax),
    ensures
        out == start_state(*syntax),
        state_in(*set, out),
{
    ParseState::new(syntax)
}

/// The ops of one line, or nothing when the grammar fails on it.
///
/// Calls `ParseState::parse_line`, which carries the state to the next
/// line, and hands each op on as plain values: the scope a push opens by its
/// name (`Scope::build_string`), the other ops by their counts. The set must
/// be the one the state's syntax came from, as `parse_line` asks: with
/// another it looks up contexts that are not there. The answer is named
/// `grammar_ops` and the state after it `next_state`; which ops the parser
/// answers is the engine's.
#[verifier::external_body]
fn parse_line(state: &mut ParseState, line: &str, set: &SyntaxSet) -> (out: Option<Vec<(usize, Op)>>)
    requires
        state_in(*set, *old(state)),
    ensures
        answer_of(out) == grammar_ops(*old(state), line@, *set),
        *final(state) == next_state(*old(state), line@, *set),
        state_in(*set, *final(state)),
{
    let ops = state.parse_line(line, set).ok()?;
    Some(ops.into_iter().map(|(pos, op)| (pos, match op {
        ScopeStackOp::Push(scope) => Op::Push(scope.build_string()),
        ScopeStackOp::Pop(n) => Op::Pop(n),
        ScopeStackOp::Clear(ClearAmount::TopN(n)) => Op::ClearTop(n),
        ScopeStackOp::Clear(ClearAmount::All) => Op::ClearAll,
        ScopeStackOp::Restore => Op::Restore,
        ScopeStackOp::Noop => Op::Noop,
    })).collect())
}

/// The syntax a file is read with: the language the map named, then its
/// extension, then its first line, then plain text, as the engine looks
/// each up.
pub open spec fn chosen_syntax(set: SyntaxSet, text: Seq<char>, language: Option<Seq<char>>, path: Seq<char>) -> Option<SyntaxReference> {
    let by_language = match language {
        Some(n) => token_syntax(set, n),
        None => None,
    };
    let by_ext = extension_syntax(set, spec_extension(path));
    let ls = crate::text::lines(text);
    let by_line = if ls.len() > 0 {
        first_line_syntax(set, ls[0])
    } else {
        None
    };
    if by_language is Some {
        by_language
    } else if by_ext is Some {
        by_ext
    } else if by_line is Some {
        by_line
    } else {
        name_syntax(set, "Plain Text"@)
    }
}

/// What the engine answers for each line, from a state on.
pub open spec fn engine_answers(set: SyntaxSet, state: ParseState, lines: Seq<Seq<char>>) -> Seq<Option<Seq<(usize, OpView)>>>
    decreases lines.len(),
{
    if lines.len() == 0 {
        Seq::empty()
    } else {
        seq![grammar_ops(state, lines[0], set)] + engine_answers(set, next_state(state, lines[0], set), lines.drop_first())
    }
}

/// What the engine answers for each line of a file read with a syntax:
/// nothing for any line when there is no syntax.
pub open spec fn file_answers(set: SyntaxSet, syntax: Option<SyntaxReference>, lines: Seq<Seq<char>>) -> Seq<Option<Seq<(usize, OpView)>>> {
    match syntax {
        Some(s) => engine_answers(set, start_state(s), lines),
        None => Seq::new(lines.len(), |i: int| None::<Seq<(usize, OpView)>>),
    }
}

/// What the engine answers for each line from where the parser stands:
/// nothing for any line without a parser.
pub open spec fn rest_answers(set: SyntaxSet, state: Option<ParseState>, lines: Seq<Seq<char>>) -> Seq<Option<Seq<(usize, OpView)>>> {
    match state {
        Some(st) => engine_answers(set, st, lines),
        None => Seq::new(lines.len(), |i: int| None::<Seq<(usize, OpView)>>),
    }
}

/// The spans of one line from its ops: between two ops, the class of the
/// scopes there; after the last, the class of the scopes left, up to the
/// end of the text. An op the scopes refuse leaves the rest of the line
/// plain but for that tail.
pub fn spans_of_line(line: &str, ops: &Vec<(usize, Op)>, scopes: &mut Scopes) -> (out: Vec<Span>)
    ensures
        (spans_view(out@), final(scopes)@) == line_spans(line@, ops_view(ops@), old(scopes)@),
{
    let end = end_of_text(line);
    let ghost ov = ops_view(ops@);
    let ghost s0 = scopes@;
    let mut steps: Vec<Step> = Vec::new();
    let mut stopped = false;
    let mut i: usize = 0;
    assert(ov.take(0) =~= Seq::<(usize, OpView)>::empty());
    assert(steps_view(steps@) =~= Seq::<StepView>::empty());
    while i < ops.len()
        invariant
            0 <= i <= ops@.len(),
            ov == ops_view(ops@),
            walk_ops(ov.take(i as int), s0) == (steps_view(steps@), scopes@, stopped),
        decreases ops@.len() - i,
    {
        assert(ov.take(i as int + 1).drop_last() =~= ov.take(i as int));
        assert(ov.take(i as int + 1).last() == (ops@[i as int].0, ops@[i as int].1@));
        if !stopped {
            let class = class_of(&scopes.names);
            let ok = apply(scopes, &ops[i].1);
            let ghost before = steps_view(steps@);
            steps.push(Step { pos: ops[i].0, class, applied: ok });
            assert(steps_view(steps@) =~= before.push(StepView { pos: ops@[i as int].0, class: crate::model::opt_view(class), applied: ok }));
            if !ok {
                stopped = true;
            }
        }
        i = i + 1;
    }
    assert(ov.take(ops@.len() as int) =~= ov);
    let after = class_of(&scopes.names);
    spans_of(end, &steps, after)
}

/// One highlighted file: the spans of every line, in order.
pub type Lines = Arc<Vec<Vec<Span>>>;

/// A second handle on the same highlighted file.
///
/// Calls `Arc::clone`, which points at the same allocation: the value is the
/// same.
#[verifier::external_body]
fn share(lines: &Lines) -> (out: Lines)
    ensures
        out == *lines,
{
    Arc::clone(lines)
}

/// Which syntax a file is read with, given what each lookup answered: the
/// language the map named wins, then the extension, then the first line,
/// then plain text. A house file format is named in the map, so the map must
/// win over an extension that another language claims.
pub fn pick_syntax<T>(by_language: Option<T>, by_extension: Option<T>, by_first_line: Option<T>, plain: Option<T>) -> (out: Option<T>)
    ensures
        out == (if by_language is Some {
            by_language
        } else if by_extension is Some {
            by_extension
        } else if by_first_line is Some {
            by_first_line
        } else {
            plain
        }),
{
    match by_language {
        Some(s) => Some(s),
        None => match by_extension {
            Some(s) => Some(s),
            None => match by_first_line {
                Some(s) => Some(s),
                None => plain,
            },
        },
    }
}

/// The highlighter: the grammars it knows, and the files it has already
/// highlighted, keyed by the hash of their content.
pub struct Highlighter {
    syntaxes: SyntaxSet,
    cache: Vec<(String, Lines)>,
}

/// The views of the spans of each line.
pub open spec fn painted_lines(v: Seq<Vec<Span>>) -> Seq<Seq<SpanView>> {
    v.map_values(|l: Vec<Span>| spans_view(l@))
}

/// The entries of a cache as plain values.
pub open spec fn entries_view(v: Seq<(String, Lines)>) -> Seq<(Seq<char>, Seq<Seq<SpanView>>)> {
    v.map_values(|e: (String, Lines)| (e.0@, painted_lines(e.1@)))
}

/// What a cache holds under a key: the first entry with it.
pub open spec fn lookup(entries: Seq<(Seq<char>, Seq<Seq<SpanView>>)>, key: Seq<char>) -> Option<Seq<Seq<SpanView>>>
    decreases entries.len(),
{
    if entries.len() == 0 {
        None
    } else if entries[0].0 == key {
        Some(entries[0].1)
    } else {
        lookup(entries.drop_first(), key)
    }
}

/// What the spans of a file are: none above the cap; else one run per line
/// of the text, each made from what the grammar engine answers for that
/// line, in the chain of parser states that starts from the syntax the file
/// is read with, by the scopes carried from the lines before; every class
/// prefixed.
pub open spec fn highlighted(set: SyntaxSet, text: Seq<char>, language: Option<Seq<char>>, path: Seq<char>, out: Seq<Seq<SpanView>>) -> bool {
    let lines = lines_with_endings(text);
    &&& blen(text) > MAX_BYTES ==> out.len() == 0
    &&& blen(text) <= MAX_BYTES ==> out.len() == lines.len()
        && out == file_spans(lines, file_answers(set, chosen_syntax(set, text, language, path), lines)).0
    &&& forall|k: int| 0 <= k < out.len() ==> prefixed(#[trigger] out[k])
}

/// The view of an optional text argument.
pub open spec fn opt_str_view(s: Option<&str>) -> Option<Seq<char>> {
    match s {
        Some(t) => Some(t@),
        None => None,
    }
}

proof fn lemma_lookup_push(entries: Seq<(Seq<char>, Seq<Seq<SpanView>>)>, key: Seq<char>, value: Seq<Seq<SpanView>>)
    requires
        lookup(entries, key) is None,
    ensures
        lookup(entries.push((key, value)), key) == Some(value),
        forall|other: Seq<char>| other != key ==> #[trigger] lookup(entries.push((key, value)), other) == lookup(entries, other),
        forall|i: int| 0 <= i < entries.len() ==> (#[trigger] entries[i]).0 != key,
    decreases entries.len(),
{
    let p = entries.push((key, value));
    if entries.len() > 0 {
        assert(p.drop_first() =~= entries.drop_first().push((key, value)));
        assert(p[0] == entries[0]);
        lemma_lookup_push(entries.drop_first(), key, value);
        assert forall|other: Seq<char>| other != key implies #[trigger] lookup(p, other) == lookup(entries, other) by {
            assert(lookup(entries.drop_first().push((key, value)), other) == lookup(entries.drop_first(), other));
        }
        assert forall|i: int| 0 <= i < entries.len() implies (#[trigger] entries[i]).0 != key by {
            if i > 0 {
                assert(entries[i] == entries.drop_first()[i - 1]);
            }
        }
    } else {
        assert(p.drop_first() =~= Seq::<(Seq<char>, Seq<Seq<SpanView>>)>::empty());
        assert forall|other: Seq<char>| other != key implies #[trigger] lookup(p, other) == lookup(entries, other) by {
            assert(p[0].0 == key);
            assert(lookup(p.drop_first(), other) is None);
        }
    }
}

impl Default for Highlighter {
    fn default() -> (h: Highlighter)
        ensures
            h.wf(),
            h.entries().len() == 0,
    {
        Highlighter::new()
    }
}

impl Highlighter {
    /// The files already highlighted, as plain values.
    pub closed spec fn entries(&self) -> Seq<(Seq<char>, Seq<Seq<SpanView>>)> {
        entries_view(self.cache@)
    }

    /// The grammars the highlighter knows.
    pub closed spec fn grammars(&self) -> SyntaxSet {
        self.syntaxes
    }

    /// What the cache holds for a blob.
    pub open spec fn cached(&self, blob: Seq<char>) -> Option<Seq<Seq<SpanView>>> {
        lookup(self.entries(), blob)
    }

    /// No blob is cached twice.
    pub open spec fn wf(&self) -> bool {
        forall|i: int, j: int|
            0 <= i < j < self.entries().len() ==> (#[trigger] self.entries()[i]).0 != (#[trigger] self.entries()[j]).0
    }

    /// The highlighter with the grammars two-face bundles, and nothing
    /// cached.
    pub fn new() -> (h: Highlighter)
        ensures
            h.wf(),
            h.entries().len() == 0,
    {
        let h = Highlighter { syntaxes: bundled(), cache: Vec::new() };
        assert(h.entries() =~= Seq::empty());
        h
    }

    /// The highlighter of a set of grammars, such as the bundle with the
    /// grammar files of the user added, and nothing cached.
    pub fn of(syntaxes: SyntaxSet) -> (h: Highlighter)
        ensures
            h.grammars() == syntaxes,
            h.wf(),
            h.entries().len() == 0,
    {
        let h = Highlighter { syntaxes, cache: Vec::new() };
        assert(h.entries() =~= Seq::empty());
        h
    }

    /// The spans of every line of a file, from the cache when the blob was
    /// highlighted before.
    ///
    /// `blob` is the git hash of the content, which is what the cache is
    /// keyed by: a second call with the same blob gives what the first gave
    /// and reads nothing of the text. `language` comes from the map, and
    /// `path` is the fallback.
    pub fn lines(&mut self, blob: &str, text: &str, language: Option<&str>, path: &str) -> (out: Lines)
        requires
            old(self).wf(),
        ensures
            final(self).wf(),
            final(self).cached(blob@) == Some(painted_lines(out@)),
            old(self).cached(blob@) matches Some(v) ==> painted_lines(out@) == v && final(self).entries() == old(self).entries(),
            final(self).grammars() == old(self).grammars(),
            old(self).cached(blob@) is None ==> highlighted(old(self).grammars(), text@, opt_str_view(language), path@, painted_lines(out@)),
            forall|other: Seq<char>| other != blob@ ==> #[trigger] final(self).cached(other) == old(self).cached(other),
    {
        let ghost ev = self.entries();
        let mut i: usize = 0;
        assert(ev.subrange(0, ev.len() as int) =~= ev);
        while i < self.cache.len()
            invariant
                0 <= i <= self.cache@.len(),
                *self == *old(self),
                old(self).wf(),
                ev == old(self).entries(),
                ev == entries_view(self.cache@),
                lookup(ev, blob@) == lookup(ev.subrange(i as int, ev.len() as int), blob@),
            decreases self.cache@.len() - i,
        {
            let ghost rest = ev.subrange(i as int, ev.len() as int);
            assert(rest[0] == ev[i as int]);
            assert(rest.drop_first() =~= ev.subrange(i + 1, ev.len() as int));
            if same_str(self.cache[i].0.as_str(), blob) {
                return share(&self.cache[i].1);
            }
            i = i + 1;
        }
        assert(ev.subrange(i as int, ev.len() as int) =~= Seq::<(Seq<char>, Seq<Seq<SpanView>>)>::empty());
        let lines = Arc::new(self.compute(text, language, path));
        let key = string_of(chars_of(blob).as_slice());
        let kept = share(&lines);
        proof {
            lemma_lookup_push(ev, blob@, painted_lines(lines@));
        }
        self.cache.push((key, kept));
        assert(self.entries() =~= ev.push((blob@, painted_lines(lines@))));
        lines
    }

    /// The syntax of a file: the language the map named, else the one of its
    /// extension, else the one its first line names, else plain text. Only a
    /// set of grammars without plain text, which the engine says every set
    /// ought to have, leaves none. Each lookup is the engine's; the order is
    /// `pick_syntax`.
    fn syntax_for(&self, text: &str, language: Option<&str>, path: &str) -> (out: Option<&SyntaxReference>)
        ensures
            match out {
                Some(s) => chosen_syntax(self.grammars(), text@, opt_str_view(language), path@) == Some(*s)
                    && syntax_in(self.grammars(), *s),
                None => chosen_syntax(self.grammars(), text@, opt_str_view(language), path@) is None,
            },
    {
        let by_language = match language {
            Some(name) => by_token(&self.syntaxes, name),
            None => None,
        };
        let ext = extension(path);
        let by_ext = by_extension(&self.syntaxes, ext.as_str());
        let ls = lines_of(chars_of(text).as_slice());
        let by_line = if ls.len() > 0 {
            let first = string_of(ls[0].as_slice());
            by_first_line(&self.syntaxes, first.as_str())
        } else {
            None
        };
        let plain = by_name(&self.syntaxes, "Plain Text");
        pick_syntax(by_language, by_ext, by_line, plain)
    }

    /// The spans of every line of a file.
    ///
    /// A file above the cap is shown without colors, and has none. Otherwise
    /// every line, with its newline, gets the spans the grammar engine's ops
    /// make of it; a line the grammar fails on gets none, and the lines
    /// after it still get theirs. Without a syntax no line gets any.
    fn compute(&self, text: &str, language: Option<&str>, path: &str) -> (out: Vec<Vec<Span>>)
        ensures
            highlighted(self.grammars(), text@, opt_str_view(language), path@, painted_lines(out@)),
    {
        if too_large(text) {
            return Vec::new();
        }
        let ghost set = self.grammars();
        let ghost lv = lines_with_endings(text@);
        let ghost full = file_answers(set, chosen_syntax(set, text@, opt_str_view(language), path@), lv);
        let mut state = match self.syntax_for(text, language, path) {
            Some(syntax) => Some(start_of(&self.syntaxes, syntax)),
            None => None,
        };
        let mut scopes = no_scopes();
        let pieces = split_lines(text);
        let ghost mut answers: Seq<Option<Seq<(usize, OpView)>>> = Seq::empty();
        let mut out: Vec<Vec<Span>> = Vec::new();
        let mut i: usize = 0;
        proof {
            assert(lv.take(0) =~= Seq::<Seq<char>>::empty());
            assert(painted_lines(out@) =~= Seq::<Seq<SpanView>>::empty());
            assert(scopes@ == file_spans(lv.take(0), answers).1);
            assert(lv.skip(0) =~= lv);
            assert(answers + rest_answers(set, state, lv.skip(0)) =~= full);
        }
        while i < pieces.len()
            invariant
                0 <= i <= pieces@.len(),
                names_view(pieces@) == lv,
                set == self.grammars(),
                answers.len() == i,
                (painted_lines(out@), scopes@) == file_spans(lv.take(i as int), answers),
                full == answers + rest_answers(set, state, lv.skip(i as int)),
                state matches Some(st) ==> state_in(set, st),
            decreases pieces@.len() - i,
        {
            assert(names_view(pieces@)[i as int] == pieces@[i as int]@);
            let line = pieces[i].as_str();
            let ghost old_state = state;
            let parsed = match &mut state {
                Some(st) => parse_line(st, line, &self.syntaxes),
                None => None,
            };
            let ghost before = out@;
            let ghost s_before = scopes@;
            let ghost answer = answer_of(parsed);
            let spans = match &parsed {
                Some(ops) => spans_of_line(line, ops, &mut scopes),
                None => Vec::new(),
            };
            out.push(spans);
            proof {
                let t = lv.take(i as int + 1);
                let na = answers.push(answer);
                assert(t.drop_last() =~= lv.take(i as int));
                assert(na.drop_last() =~= answers);
                assert(t.last() == line@);
                assert(painted_lines(out@) =~= painted_lines(before).push(spans_view(spans@)));
                if answer is None {
                    assert(spans_view(spans@) =~= Seq::<SpanView>::empty());
                }
                let r = lv.skip(i as int);
                assert(r[0] == line@);
                assert(r.drop_first() =~= lv.skip(i as int + 1));
                match old_state {
                    Some(st) => {
                        assert(rest_answers(set, old_state, r) == seq![grammar_ops(st, r[0], set)]
                            + engine_answers(set, next_state(st, r[0], set), r.drop_first()));
                        assert(na + rest_answers(set, state, lv.skip(i as int + 1)) =~= answers + rest_answers(set, old_state, r));
                    },
                    None => {
                        assert(na + rest_answers(set, state, lv.skip(i as int + 1)) =~= answers + rest_answers(set, old_state, r));
                    },
                }
                answers = na;
            }
            i = i + 1;
        }
        proof {
            assert(lv.take(lv.len() as int) =~= lv);
            assert(lv.skip(lv.len() as int) =~= Seq::<Seq<char>>::empty());
            assert(rest_answers(set, state, lv.skip(lv.len() as int)) =~= Seq::<Option<Seq<(usize, OpView)>>>::empty());
            assert(answers =~= full);
            lemma_file_spans_prefixed(lv, answers);
        }
        out
    }
}

} // verus!
