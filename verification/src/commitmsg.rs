//! The commit message as a file of the change.
//!
//! A reader reads the message the way they read the code, so it is one
//! more row in the file list. Gerrit shows it under the same name.
//!
//! Against the parent, the whole message is new: the parent carries another
//! message, and a diff of the two says nothing. Against another patch set,
//! the two messages are diffed, and that is where an amend shows. The lines
//! are diffed by the `similar` crate; what is built from its answer is
//! verified here.

use vstd::prelude::*;
use similar::{ChangeTag, TextDiff};
use crate::diff::words::{mark, spec_mark, Tag};
use crate::model::{
    hunks_view, rows_view, FileDiff, FileDiffView, FileEntry, FileEntryView, FileStatus, Hunk,
    HunkView, Row, RowKind, RowView,
};
use crate::text::{
    chars_of, extend_str, lines, lines_of, same_str, string_of, trim_end, trim_end_char,
    trim_end_chars, trim_end_matching,
};

verus! {

/// The path the message is shown under.
///
/// It starts with a slash, which no path of a git tree can, so it collides
/// with nothing. Gerrit uses this name.
pub const PATH: &'static str = "/COMMIT_MSG";

/// True when the path names the message rather than a file of the tree.
pub fn is(path: &str) -> (b: bool)
    ensures
        b == (path@ == PATH@),
{
    same_str(path, PATH)
}

/// The message of a commit, as the reader reads it: without the blank at
/// its end, then one newline. An empty message is no text.
pub fn text(message: &str) -> (out: Option<String>)
    ensures
        match out {
            Some(t) => trim_end(message@).len() > 0 && t@ == trim_end(message@).push('\n'),
            None => trim_end(message@).len() == 0,
        },
{
    let t = trim_end_chars(chars_of(message).as_slice());
    if t.len() == 0 {
        return None;
    }
    let mut v = t;
    v.push('\n');
    Some(string_of(v.as_slice()))
}

/// One line of a line diff: kept, removed or added, the index of the line on
/// each side it stands on, and its text with its newline.
pub struct LineChange {
    pub tag: Tag,
    pub old_index: Option<usize>,
    pub new_index: Option<usize>,
    pub value: String,
}

/// One group of changes with the context around them: where the group
/// starts and ends on each side (none for a group with no change), and its
/// lines.
pub struct Group {
    pub ranges: Option<(usize, usize, usize, usize)>,
    pub changes: Vec<LineChange>,
}

/// A group as the contracts read it.
pub struct GroupView {
    pub ranges: Option<(usize, usize, usize, usize)>,
    pub changes: Seq<(Tag, Option<usize>, Option<usize>, Seq<char>)>,
}

/// The view of a group.
pub open spec fn group_view(g: Group) -> GroupView {
    GroupView {
        ranges: g.ranges,
        changes: g.changes@.map_values(
            |c: LineChange| (c.tag, c.old_index, c.new_index, c.value@),
        ),
    }
}

/// The views of the groups.
pub open spec fn groups_view(g: Seq<Group>) -> Seq<GroupView> {
    g.map_values(|x: Group| group_view(x))
}

/// What `similar` answers for the line diff of two texts, grouped with
/// `radius` lines of context (`TextDiff::from_lines(old, new)`,
/// `grouped_ops(radius)`, each op expanded by `iter_changes`).
pub uninterp spec fn line_groups(old: Seq<char>, new: Seq<char>, radius: usize) -> Seq<GroupView>;

/// The tags of every line of the diff of two texts, as `similar` answers
/// them (`TextDiff::from_lines(old, new).iter_all_changes()`).
pub uninterp spec fn line_tags(old: Seq<char>, new: Seq<char>) -> Seq<Tag>;

/// What a group of the line diff holds, whatever the algorithm chose: each
/// range starts before it ends, and each index is one a vector can hold.
pub open spec fn group_facts(g: GroupView) -> bool {
    &&& g.ranges matches Some((os, oe, ns, ne)) ==> os <= oe && ns <= ne
    &&& forall|k: int|
        0 <= k < g.changes.len() ==> {
            &&& (#[trigger] g.changes[k]).1 matches Some(i) ==> i < usize::MAX
            &&& g.changes[k].2 matches Some(i) ==> i < usize::MAX
        }
}

/// The line diff of two texts, in groups with `radius` lines of context.
///
/// Calls `similar::TextDiff::from_lines` and `grouped_ops`, and expands each
/// op with `iter_changes`; the ranges of a group are where its first op
/// starts and its last op ends. The contract names the answer `line_groups`
/// and states what its source shows of any answer: the ranges of a group are
/// contiguous, and an index is one of a vector in memory. Which diff the
/// algorithm picks is not said. `grouped_ops` doubles the radius, which
/// overflows above half of `usize::MAX`: such a radius is left out.
#[verifier::external_body]
fn grouped_changes(old: &str, new: &str, radius: usize) -> (out: Vec<Group>)
    requires
        radius <= usize::MAX / 2,
    ensures
        groups_view(out@) == line_groups(old@, new@, radius),
        forall|k: int| 0 <= k < out@.len() ==> group_facts(#[trigger] line_groups(old@, new@, radius)[k]),
{
    let diff = TextDiff::from_lines(old, new);
    diff.grouped_ops(radius).iter().map(|group| Group {
        ranges: group.first().zip(group.last())
            .map(|(f, l)| (f.old_range().start, l.old_range().end, f.new_range().start, l.new_range().end)),
        changes: group.iter().flat_map(|op| diff.iter_changes(op)).map(|c| LineChange {
            tag: match c.tag() {
                ChangeTag::Equal => Tag::Equal,
                ChangeTag::Delete => Tag::Delete,
                ChangeTag::Insert => Tag::Insert,
            },
            old_index: c.old_index(),
            new_index: c.new_index(),
            value: c.value().to_owned(),
        }).collect(),
    }).collect()
}

/// The tags of every line of the diff of two texts.
///
/// Calls `similar::TextDiff::from_lines` and walks `iter_all_changes`. The
/// contract names the answer `line_tags`; which diff the algorithm picks is
/// not said.
#[verifier::external_body]
fn all_line_tags(old: &str, new: &str) -> (out: Vec<Tag>)
    ensures
        out@ == line_tags(old@, new@),
{
    TextDiff::from_lines(old, new).iter_all_changes().map(|change| match change.tag() {
        ChangeTag::Equal => Tag::Equal,
        ChangeTag::Delete => Tag::Delete,
        ChangeTag::Insert => Tag::Insert,
    }).collect()
}

/// How many tags of the run are `t`.
pub open spec fn count_tag(tags: Seq<Tag>, t: Tag) -> nat
    decreases tags.len(),
{
    if tags.len() == 0 {
        0
    } else {
        count_tag(tags.drop_last(), t) + if tags.last() == t {
            1nat
        } else {
            0nat
        }
    }
}

/// How many lines the message gained and lost.
pub open spec fn spec_counts(old: Seq<char>, new: Seq<char>) -> (nat, nat) {
    if old == new {
        (0, 0)
    } else {
        (count_tag(line_tags(old, new), Tag::Insert), count_tag(line_tags(old, new), Tag::Delete))
    }
}

/// The entry of the file list for the message.
pub open spec fn entry_view(old: Seq<char>, new: Seq<char>) -> FileEntryView {
    FileEntryView {
        path: PATH@,
        old_path: None,
        status: if old.len() == 0 {
            FileStatus::Added
        } else {
            FileStatus::Modified
        },
        language: Seq::empty(),
        binary: false,
        added: spec_counts(old, new).0 as usize,
        removed: spec_counts(old, new).1 as usize,
    }
}

/// How many lines the message gained and lost.
fn counts(old: &str, new: &str) -> (out: (usize, usize))
    ensures
        out.0 as nat == spec_counts(old@, new@).0,
        out.1 as nat == spec_counts(old@, new@).1,
{
    if same_str(old, new) {
        return (0, 0);
    }
    let tags = all_line_tags(old, new);
    let mut added: usize = 0;
    let mut removed: usize = 0;
    let mut i: usize = 0;
    while i < tags.len()
        invariant
            i <= tags@.len(),
            tags@ == line_tags(old@, new@),
            added as nat == count_tag(tags@.subrange(0, i as int), Tag::Insert),
            removed as nat == count_tag(tags@.subrange(0, i as int), Tag::Delete),
            added + removed <= i,
        decreases tags@.len() - i,
    {
        assert(tags@.subrange(0, i + 1).drop_last() == tags@.subrange(0, i as int));
        match tags[i] {
            Tag::Insert => added = added + 1,
            Tag::Delete => removed = removed + 1,
            Tag::Equal => {},
        }
        i = i + 1;
    }
    assert(tags@.subrange(0, tags@.len() as int) == tags@);
    (added, removed)
}

/// The entry of the file list, with the counts the diff produces.
pub fn entry(old: &str, new: &str) -> (e: FileEntry)
    ensures
        e@ == entry_view(old@, new@),
{
    let (added, removed) = counts(old, new);
    FileEntry {
        path: PATH.to_owned(),
        old_path: None,
        status: if old.is_empty() {
            FileStatus::Added
        } else {
            FileStatus::Modified
        },
        language: String::new(),
        binary: false,
        added,
        removed,
    }
}

/// A row of the message: its text without the newline.
pub open spec fn row_view(kind: RowKind, old_line: Option<usize>, new_line: Option<usize>, text: Seq<char>) -> RowView {
    RowView {
        kind,
        old_line,
        new_line,
        text: trim_end_char(text, '\n'),
        no_newline: false,
        tokens: Seq::empty(),
        words: Seq::empty(),
    }
}

/// The number of the line at an index.
pub open spec fn line_number(index: Option<usize>) -> Option<usize> {
    match index {
        Some(i) => Some((i + 1) as usize),
        None => None,
    }
}

/// The kind of row a tag of the diff makes.
pub open spec fn kind_of(t: Tag) -> RowKind {
    match t {
        Tag::Equal => RowKind::Context,
        Tag::Delete => RowKind::Remove,
        Tag::Insert => RowKind::Add,
    }
}

/// The row of one line of the diff.
pub open spec fn change_row(c: (Tag, Option<usize>, Option<usize>, Seq<char>)) -> RowView {
    row_view(kind_of(c.0), line_number(c.1), line_number(c.2), c.3)
}

/// The hunk of a group: git prints 0 for the start of a side that is empty,
/// and the interface reads these numbers the way git writes them.
pub open spec fn hunk_of(g: GroupView) -> HunkView {
    let (os, oe, ns, ne) = g.ranges->0;
    let old_lines = (oe - os) as usize;
    let new_lines = (ne - ns) as usize;
    HunkView {
        old_start: if old_lines == 0 {
            0
        } else {
            (os + 1) as usize
        },
        old_lines,
        new_start: if new_lines == 0 {
            0
        } else {
            (ns + 1) as usize
        },
        new_lines,
        header: Seq::empty(),
        rows: g.changes.map_values(|c: (Tag, Option<usize>, Option<usize>, Seq<char>)| change_row(c)),
    }
}

/// The hunks of the groups, leaving out a group with no line.
pub open spec fn hunks_of(gs: Seq<GroupView>) -> Seq<HunkView>
    decreases gs.len(),
{
    if gs.len() == 0 {
        Seq::empty()
    } else if gs.last().ranges is Some {
        hunks_of(gs.drop_last()).push(hunk_of(gs.last()))
    } else {
        hunks_of(gs.drop_last())
    }
}

/// The hunks with the words that changed inside their rows marked.
pub open spec fn marked(hs: Seq<HunkView>) -> Seq<HunkView> {
    hs.map_values(|h: HunkView| HunkView { rows: spec_mark(h.rows), ..h })
}

/// One hunk that holds the whole message as context, each line numbered the
/// same on both sides.
pub open spec fn whole_view(text: Seq<char>) -> HunkView {
    let ls = lines(text);
    HunkView {
        old_start: 1,
        old_lines: ls.len() as usize,
        new_start: 1,
        new_lines: ls.len() as usize,
        header: Seq::empty(),
        rows: Seq::new(
            ls.len(),
            |i: int| row_view(RowKind::Context, Some((i + 1) as usize), Some((i + 1) as usize), ls[i]),
        ),
    }
}

/// The context kept around each change: `context`, or the whole of both
/// texts when that is fewer lines.
pub open spec fn radius(old: Seq<char>, new: Seq<char>, context: usize) -> usize {
    let whole = lines(old).len() + lines(new).len() + 1;
    if context <= whole {
        context
    } else {
        whole as usize
    }
}

/// The hunks of the two messages, with `context` lines around each change.
/// Two messages that are the same make one hunk of context rows, for the
/// reader opened the message to read it.
pub open spec fn spec_hunks(old: Seq<char>, new: Seq<char>, context: usize) -> Seq<HunkView> {
    if old == new {
        if new.len() == 0 {
            Seq::empty()
        } else {
            seq![whole_view(new)]
        }
    } else {
        marked(hunks_of(line_groups(old, new, radius(old, new, context))))
    }
}

/// One row of the message.
fn row(kind: RowKind, old_line: Option<usize>, new_line: Option<usize>, text: &[char]) -> (r: Row)
    ensures
        r@ == row_view(kind, old_line, new_line, text@),
{
    let t = trim_end_matching(text, '\n');
    let r = Row {
        kind,
        old_line,
        new_line,
        text: string_of(t.as_slice()),
        no_newline: false,
        tokens: Vec::new(),
        words: Vec::new(),
    };
    assert(r@.tokens =~= Seq::empty());
    r
}

/// The hunk of a group, when it holds a line.
fn hunk_from(g: &Group) -> (h: Option<Hunk>)
    requires
        group_view(*g).ranges matches Some((os, oe, ns, ne)) ==> os <= oe && ns <= ne,
        forall|k: int|
            0 <= k < group_view(*g).changes.len() ==> ((#[trigger] group_view(*g).changes[k]).1 matches Some(i)
                ==> i < usize::MAX) && (group_view(*g).changes[k].2 matches Some(i) ==> i < usize::MAX),
    ensures
        match h {
            Some(h) => group_view(*g).ranges is Some && h@ == hunk_of(group_view(*g)),
            None => group_view(*g).ranges is None,
        },
{
    let (os, oe, ns, ne) = match g.ranges {
        Some(r) => r,
        None => return None,
    };
    let ghost gv = group_view(*g);
    let old_lines = oe - os;
    let new_lines = ne - ns;
    let mut rows: Vec<Row> = Vec::new();
    let mut i: usize = 0;
    while i < g.changes.len()
        invariant
            i <= g.changes@.len(),
            gv == group_view(*g),
            forall|k: int|
                0 <= k < gv.changes.len() ==> ((#[trigger] gv.changes[k]).1 matches Some(i) ==> i
                    < usize::MAX) && (gv.changes[k].2 matches Some(i) ==> i < usize::MAX),
            rows_view(rows@) == gv.changes.subrange(0, i as int).map_values(
                |c: (Tag, Option<usize>, Option<usize>, Seq<char>)| change_row(c),
            ),
        decreases g.changes@.len() - i,
    {
        let c = &g.changes[i];
        assert(gv.changes[i as int] == (c.tag, c.old_index, c.new_index, c.value@));
        let kind = match c.tag {
            Tag::Equal => RowKind::Context,
            Tag::Delete => RowKind::Remove,
            Tag::Insert => RowKind::Add,
        };
        let old_line = match c.old_index {
            Some(x) => Some(x + 1),
            None => None,
        };
        let new_line = match c.new_index {
            Some(x) => Some(x + 1),
            None => None,
        };
        let v = chars_of(c.value.as_str());
        let r = row(kind, old_line, new_line, v.as_slice());
        let ghost before = rows_view(rows@);
        rows.push(r);
        assert(rows_view(rows@) =~= before.push(change_row(gv.changes[i as int])));
        assert(gv.changes.subrange(0, i + 1).map_values(
            |c: (Tag, Option<usize>, Option<usize>, Seq<char>)| change_row(c),
        ) =~= before.push(change_row(gv.changes[i as int])));
        i = i + 1;
    }
    assert(gv.changes.subrange(0, gv.changes.len() as int) == gv.changes);
    let h = Hunk {
        old_start: if old_lines == 0 {
            0
        } else {
            os + 1
        },
        old_lines,
        new_start: if new_lines == 0 {
            0
        } else {
            ns + 1
        },
        new_lines,
        header: String::new(),
        rows,
    };
    Some(h)
}

/// One hunk that holds the whole message as context.
fn whole(text: &str) -> (h: Hunk)
    ensures
        h@ == whole_view(text@),
{
    let v = chars_of(text);
    let ls = lines_of(v.as_slice());
    let ghost lv = lines(text@);
    let mut rows: Vec<Row> = Vec::new();
    let mut i: usize = 0;
    while i < ls.len()
        invariant
            i <= ls@.len(),
            ls@.len() == lv.len(),
            lv == lines(text@),
            forall|k: int| 0 <= k < ls@.len() ==> #[trigger] ls@[k]@ == lv[k],
            rows@.len() == i,
            forall|k: int|
                0 <= k < i ==> #[trigger] rows@[k]@ == row_view(
                    RowKind::Context,
                    Some((k + 1) as usize),
                    Some((k + 1) as usize),
                    lv[k],
                ),
        decreases ls@.len() - i,
    {
        let r = row(RowKind::Context, Some(i + 1), Some(i + 1), ls[i].as_slice());
        rows.push(r);
        i = i + 1;
    }
    let n = rows.len();
    let h = Hunk { old_start: 1, old_lines: n, new_start: 1, new_lines: n, header: String::new(), rows };
    assert(rows_view(h.rows@) =~= whole_view(text@).rows);
    h
}

/// The context kept around each change.
fn radius_of(old: &str, new: &str, context: usize) -> (r: usize)
    ensures
        r == radius(old@, new@, context),
{
    let a = lines_of(chars_of(old).as_slice()).len();
    let b = lines_of(chars_of(new).as_slice()).len();
    if context <= a {
        return context;
    }
    let over = context - a;
    if over - 1 <= b {
        context
    } else {
        a + b + 1
    }
}

/// The hunks of the two messages, with `context` lines around each change
/// and the words that changed inside their rows marked.
///
/// Two messages that are the same still make one hunk of context rows: the
/// person who opened the message meant to read it, and an empty page is
/// nothing to read. The line diff doubles the context it keeps, so the
/// context kept (`context`, or the whole of both texts when that is fewer
/// lines) must be at most half of `usize::MAX`.
fn hunks(old: &str, new: &str, context: usize) -> (out: Vec<Hunk>)
    requires
        old@ != new@ ==> radius(old@, new@, context) <= usize::MAX / 2,
    ensures
        hunks_view(out@) == spec_hunks(old@, new@, context),
{
    if same_str(old, new) {
        let hunks = if new.is_empty() {
            Vec::new()
        } else {
            vec![whole(new)]
        };
        assert(hunks_view(hunks@) =~= spec_hunks(old@, new@, context));
        return hunks;
    }
    let radius = radius_of(old, new, context);
    let groups = grouped_changes(old, new, radius);
    let ghost gs = line_groups(old@, new@, radius);
    let mut hunks: Vec<Hunk> = Vec::new();
    let mut i: usize = 0;
    while i < groups.len()
        invariant
            i <= groups@.len(),
            groups_view(groups@) == gs,
            gs == line_groups(old@, new@, radius),
            forall|k: int| 0 <= k < groups@.len() ==> group_facts(#[trigger] gs[k]),
            hunks_view(hunks@) == marked(hunks_of(gs.subrange(0, i as int))),
        decreases groups@.len() - i,
    {
        assert(gs[i as int] == group_view(groups@[i as int]));
        assert(group_facts(gs[i as int]));
        let ghost sub = gs.subrange(0, i + 1);
        assert(sub.drop_last() == gs.subrange(0, i as int));
        assert(sub.last() == gs[i as int]);
        match hunk_from(&groups[i]) {
            Some(mut h) => {
                let ghost hv = h@;
                assert(hv == hunk_of(gs[i as int]));
                mark(&mut h);
                let ghost before = hunks_view(hunks@);
                hunks.push(h);
                assert(hunks_view(hunks@) =~= before.push(HunkView { rows: spec_mark(hv.rows), ..hv }));
                assert(marked(hunks_of(sub)) =~= marked(hunks_of(gs.subrange(0, i as int))).push(
                    HunkView { rows: spec_mark(hv.rows), ..hv },
                ));
            },
            None => {
                assert(hunks_of(sub) == hunks_of(gs.subrange(0, i as int)));
            },
        }
        i = i + 1;
    }
    assert(gs.subrange(0, gs.len() as int) == gs);
    hunks
}

/// Whether `diff` can be asked for these texts and this context: the
/// context it keeps is at most half of `usize::MAX`, or the texts are the
/// same.
pub fn context_fits(old: &str, new: &str, context: usize) -> (b: bool)
    ensures
        b == (old@ != new@ ==> radius(old@, new@, context) <= usize::MAX / 2),
{
    same_str(old, new) || radius_of(old, new, context) <= usize::MAX / 2
}

/// The diff of the message, ready to be painted.
pub fn diff(old: &str, new: &str, context: usize) -> (f: FileDiff)
    requires
        old@ != new@ ==> radius(old@, new@, context) <= usize::MAX / 2,
    ensures
        f@ == (FileDiffView {
            file: entry_view(old@, new@),
            hunks: spec_hunks(old@, new@, context),
            line_count: Some(lines(new@).len() as usize),
        }),
{
    let file = entry(old, new);
    let line_count = lines_of(chars_of(new).as_slice()).len();
    let hunks = hunks(old, new, context);
    FileDiff { file, hunks, line_count: Some(line_count) }
}

} // verus!
