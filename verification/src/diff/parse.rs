//! Turn the patch that git prints into files, hunks, and rows.
//!
//! A function from text to structure. The patch is read line by line, and
//! each line moves a builder of the current file one step: the spec below
//! says what each step does, and `parse` is proved to compute the same
//! fold.

use vstd::prelude::*;
use crate::model::{
    diffs_view, hunks_view, rows_view, FileDiff, FileDiffView, FileEntry, FileEntryView,
    FileStatus, Hunk, HunkView, Row, RowKind, RowView, Span,
};
use crate::text::{
    after, chars_of, find, find_chars, has_prefix_str, is_whitespace, is_ws, parse_usize,
    parse_usize_chars, same, word_len, slice, split, split_chars, starts_with, string_of, strip_prefix,
    trim, trim_chars, trim_end_char, trim_end_matching, trim_start, trim_start_chars,
};

verus! {

// ---------------------------------------------------------------------------
// What a parse is
// ---------------------------------------------------------------------------

/// The state of one file while its lines are read.
pub struct BuilderView {
    pub path: Seq<char>,
    pub old_path: Option<Seq<char>>,
    pub status: FileStatus,
    pub binary: bool,
    pub added: int,
    pub removed: int,
    pub hunks: Seq<HunkView>,
    pub old_line: int,
    pub new_line: int,
    pub in_hunk: bool,
}

/// `a/old b/new`, read into the two paths, when it has that shape.
pub open spec fn spec_split_header(header: Seq<char>) -> (Option<Seq<char>>, Option<Seq<char>>) {
    if starts_with(header, "a/"@) {
        let rest = after(header, "a/"@);
        match find(rest, " b/"@) {
            Some(at) => (
                Some(rest.subrange(0, at)),
                Some(rest.subrange(at + " b/"@.len(), rest.len() as int)),
            ),
            None => (None, None),
        }
    } else {
        (None, None)
    }
}

/// The builder a `diff --git` line opens.
pub open spec fn spec_new(header: Seq<char>) -> BuilderView {
    let (a, b) = spec_split_header(header);
    BuilderView {
        path: match b {
            Some(b) => b,
            None => Seq::empty(),
        },
        old_path: a,
        status: FileStatus::Modified,
        binary: false,
        added: 0,
        removed: 0,
        hunks: Seq::empty(),
        old_line: 0,
        new_line: 0,
        in_hunk: false,
    }
}

/// A quoted path with its escapes undone, from the first character on.
pub open spec fn unescape(s: Seq<char>) -> Seq<char>
    decreases s.len(),
{
    if s.len() == 0 {
        Seq::empty()
    } else if s[0] != '\\' {
        seq![s[0]] + unescape(s.drop_first())
    } else if s.len() == 1 {
        seq!['\\']
    } else {
        let c = s[1];
        let head = if c == 'n' {
            seq!['\n']
        } else if c == 't' {
            seq!['\t']
        } else if c == '"' {
            seq!['"']
        } else if c == '\\' {
            seq!['\\']
        } else {
            seq!['\\', c]
        };
        head + unescape(s.subrange(2, s.len() as int))
    }
}

/// Undo the C-style quoting git uses for a path with a special character.
pub open spec fn spec_unquote(p: Seq<char>) -> Seq<char> {
    let path = trim_end_char(p, '\t');
    if path.len() >= 2 && path[0] == '"' && path.last() == '"' {
        unescape(path.subrange(1, path.len() - 1))
    } else {
        path
    }
}

/// `a/path`, `b/path`, or `/dev/null` on the side that has no file.
pub open spec fn spec_strip_side(value: Seq<char>) -> Option<Seq<char>> {
    let v = split(value, '\t')[0];
    if v == "/dev/null"@ {
        None
    } else {
        let u = spec_unquote(v);
        if starts_with(u, "a/"@) {
            Some(after(u, "a/"@))
        } else if starts_with(u, "b/"@) {
            Some(after(u, "b/"@))
        } else {
            Some(u)
        }
    }
}

/// A line of the file header: the status, the paths, and whether it is binary.
pub open spec fn spec_header_line(b: BuilderView, line: Seq<char>) -> BuilderView {
    if starts_with(line, "new file mode"@) {
        BuilderView { status: FileStatus::Added, ..b }
    } else if starts_with(line, "deleted file mode"@) {
        BuilderView { status: FileStatus::Deleted, ..b }
    } else if starts_with(line, "rename from "@) {
        BuilderView {
            status: FileStatus::Renamed,
            old_path: Some(spec_unquote(after(line, "rename from "@))),
            ..b
        }
    } else if starts_with(line, "rename to "@) {
        BuilderView { path: spec_unquote(after(line, "rename to "@)), ..b }
    } else if starts_with(line, "copy from "@) {
        BuilderView {
            status: FileStatus::Copied,
            old_path: Some(spec_unquote(after(line, "copy from "@))),
            ..b
        }
    } else if starts_with(line, "copy to "@) {
        BuilderView { path: spec_unquote(after(line, "copy to "@)), ..b }
    } else if starts_with(line, "Binary files "@) || starts_with(line, "GIT binary patch"@) {
        BuilderView { binary: true, ..b }
    } else if starts_with(line, "--- "@) && spec_strip_side(after(line, "--- "@)) is Some {
        BuilderView { old_path: spec_strip_side(after(line, "--- "@)), ..b }
    } else if starts_with(line, "+++ "@) && spec_strip_side(after(line, "+++ "@)) is Some {
        BuilderView { path: spec_strip_side(after(line, "+++ "@)).unwrap(), ..b }
    } else {
        b
    }
}

/// `-12,7` or `+3` read as `(start, count)`. A range of one line has no count.
pub open spec fn spec_range(part: Seq<char>, sign: char) -> Option<(usize, usize)> {
    if part.len() > 0 && part[0] == sign {
        let p = part.drop_first();
        match find(p, seq![',']) {
            Some(i) => match (
                parse_usize(p.subrange(0, i)),
                parse_usize(p.subrange(i + 1, p.len() as int)),
            ) {
                (Some(start), Some(count)) => Some((start, count)),
                _ => None,
            },
            None => match parse_usize(p) {
                Some(start) => Some((start, 1)),
                None => None,
            },
        }
    } else {
        None
    }
}

/// The first word of `s` and what follows it, the way `split_whitespace`
/// reads them.
pub open spec fn first_word(s: Seq<char>) -> Option<(Seq<char>, Seq<char>)> {
    let t = trim_start(s);
    if t.len() == 0 {
        None
    } else {
        Some((t.subrange(0, word_len(t) as int), t.subrange(word_len(t) as int, t.len() as int)))
    }
}

/// The two ranges of a hunk header, when both read.
pub open spec fn hunk_ranges(ranges: Seq<char>) -> Option<((usize, usize), (usize, usize))> {
    match first_word(ranges) {
        None => None,
        Some((one, rest)) => match spec_range(one, '-') {
            None => None,
            Some(old) => match first_word(rest) {
                None => None,
                Some((two, _)) => match spec_range(two, '+') {
                    None => None,
                    Some(new) => Some((old, new)),
                },
            },
        },
    }
}

/// A `@@ -a,b +c,d @@ header` line, after its first `@@ `.
pub open spec fn spec_start_hunk(b: BuilderView, rest: Seq<char>) -> BuilderView {
    match find(rest, "@@"@) {
        None => b,
        Some(at) => match hunk_ranges(rest.subrange(0, at)) {
            None => b,
            Some((old, new)) => BuilderView {
                old_line: old.0 as int,
                new_line: new.0 as int,
                in_hunk: true,
                hunks: b.hunks.push(
                    HunkView {
                        old_start: old.0,
                        old_lines: old.1,
                        new_start: new.0,
                        new_lines: new.1,
                        header: trim(rest.subrange(at + "@@"@.len(), rest.len() as int)),
                        rows: Seq::empty(),
                    },
                ),
                ..b
            },
        },
    }
}

/// A row with the text and the line numbers given.
pub open spec fn new_row(
    kind: RowKind,
    old_line: Option<usize>,
    new_line: Option<usize>,
    text: Seq<char>,
) -> RowView {
    RowView {
        kind,
        old_line,
        new_line,
        text,
        no_newline: false,
        tokens: Seq::empty(),
        words: Seq::empty(),
    }
}

/// The hunks with a row added to the last one.
pub open spec fn push_row(hunks: Seq<HunkView>, row: RowView) -> Seq<HunkView> {
    if hunks.len() > 0 {
        let h = hunks.last();
        hunks.update(hunks.len() - 1, HunkView { rows: h.rows.push(row), ..h })
    } else {
        hunks
    }
}

/// A row of the current hunk, numbered on the sides it belongs to.
pub open spec fn spec_row(b: BuilderView, kind: RowKind, text: Seq<char>) -> BuilderView {
    match kind {
        RowKind::Context => BuilderView {
            hunks: push_row(
                b.hunks,
                new_row(kind, Some(b.old_line as usize), Some(b.new_line as usize), text),
            ),
            old_line: b.old_line + 1,
            new_line: b.new_line + 1,
            ..b
        },
        RowKind::Add => BuilderView {
            hunks: push_row(b.hunks, new_row(kind, None, Some(b.new_line as usize), text)),
            new_line: b.new_line + 1,
            added: b.added + 1,
            ..b
        },
        RowKind::Remove => BuilderView {
            hunks: push_row(b.hunks, new_row(kind, Some(b.old_line as usize), None, text)),
            old_line: b.old_line + 1,
            removed: b.removed + 1,
            ..b
        },
    }
}

/// The last row of the last hunk, marked as having no newline after it.
pub open spec fn spec_no_newline(b: BuilderView) -> BuilderView {
    if b.hunks.len() > 0 && b.hunks.last().rows.len() > 0 {
        let h = b.hunks.last();
        let r = h.rows.last();
        BuilderView {
            hunks: b.hunks.update(
                b.hunks.len() - 1,
                HunkView {
                    rows: h.rows.update(h.rows.len() - 1, RowView { no_newline: true, ..r }),
                    ..h
                },
            ),
            ..b
        }
    } else {
        b
    }
}

/// One line of the patch read into the builder of the current file.
pub open spec fn spec_line(b: BuilderView, line: Seq<char>) -> BuilderView {
    if starts_with(line, "@@ "@) {
        spec_start_hunk(b, after(line, "@@ "@))
    } else if !b.in_hunk {
        spec_header_line(b, line)
    } else if line.len() > 0 && line[0] == ' ' {
        spec_row(b, RowKind::Context, line.drop_first())
    } else if line.len() > 0 && line[0] == '+' {
        spec_row(b, RowKind::Add, line.drop_first())
    } else if line.len() > 0 && line[0] == '-' {
        spec_row(b, RowKind::Remove, line.drop_first())
    } else if line.len() > 0 && line[0] == '\\' {
        spec_no_newline(b)
    } else {
        BuilderView { in_hunk: false, ..b }
    }
}

/// Whether the counters of that step fit in a `usize`. The patch is read
/// with machine integers, and a hunk that starts at the very top of their
/// range cannot be counted on.
pub open spec fn line_fits(b: BuilderView, line: Seq<char>) -> bool {
    if starts_with(line, "@@ "@) || !b.in_hunk || line.len() == 0 {
        true
    } else if line[0] == ' ' {
        b.old_line + 1 <= usize::MAX && b.new_line + 1 <= usize::MAX
    } else if line[0] == '+' {
        b.new_line + 1 <= usize::MAX && b.added + 1 <= usize::MAX
    } else if line[0] == '-' {
        b.old_line + 1 <= usize::MAX && b.removed + 1 <= usize::MAX
    } else {
        true
    }
}

/// The file a builder describes, once its lines are read.
pub open spec fn spec_build(b: BuilderView) -> FileDiffView {
    FileDiffView {
        file: FileEntryView {
            path: b.path,
            old_path: if b.status == FileStatus::Renamed || b.status == FileStatus::Copied {
                b.old_path
            } else {
                None
            },
            status: b.status,
            language: Seq::empty(),
            binary: b.binary,
            added: b.added as usize,
            removed: b.removed as usize,
        },
        hunks: b.hunks,
        line_count: None,
    }
}

/// The files read so far, and the one still being read.
pub open spec fn scan(lines: Seq<Seq<char>>) -> (Seq<FileDiffView>, Option<BuilderView>)
    decreases lines.len(),
{
    if lines.len() == 0 {
        (Seq::empty(), None)
    } else {
        let (files, cur) = scan(lines.drop_last());
        let line = lines.last();
        if starts_with(line, "diff --git "@) {
            let files2 = match cur {
                Some(b) => files.push(spec_build(b)),
                None => files,
            };
            (files2, Some(spec_new(after(line, "diff --git "@))))
        } else {
            match cur {
                None => (files, None),
                Some(b) => (files, Some(spec_line(b, line))),
            }
        }
    }
}

/// Whether every step of the scan keeps its counters in range.
pub open spec fn scan_fits(lines: Seq<Seq<char>>) -> bool
    decreases lines.len(),
{
    if lines.len() == 0 {
        true
    } else {
        scan_fits(lines.drop_last()) && {
            let line = lines.last();
            let cur = scan(lines.drop_last()).1;
            starts_with(line, "diff --git "@) || match cur {
                None => true,
                Some(b) => line_fits(b, line),
            }
        }
    }
}

/// The files of a patch.
pub open spec fn spec_parse(patch: Seq<char>) -> Seq<FileDiffView> {
    let (files, cur) = scan(split(patch, '\n'));
    match cur {
        Some(b) => files.push(spec_build(b)),
        None => files,
    }
}

/// Whether the patch can be read with machine integers.
pub open spec fn parse_fits(patch: Seq<char>) -> bool {
    scan_fits(split(patch, '\n'))
}

// ---------------------------------------------------------------------------
// The parser
// ---------------------------------------------------------------------------

/// Whether a patch can be read with machine integers, which `parse` asks:
/// no line or count of a file reaches the top of `usize`.
pub fn fits(patch: &str) -> (b: bool)
    ensures
        b == parse_fits(patch@),
{
    let text = chars_of(patch);
    let lines = split_chars(text.as_slice(), '\n');
    let ghost ls = split(patch@, '\n');
    let mut current: Option<Builder> = None;
    let mut i: usize = 0;
    assert(ls.subrange(0, 0) =~= Seq::<Seq<char>>::empty());
    while i < lines.len()
        invariant
            0 <= i <= lines@.len(),
            lines@.len() == ls.len(),
            forall|k: int| 0 <= k < lines@.len() ==> #[trigger] lines@[k]@ == ls[k],
            ls == split(patch@, '\n'),
            scan_fits(ls.subrange(0, i as int)),
            match current {
                Some(b) => scan(ls.subrange(0, i as int)).1 == Some(b.view()),
                None => scan(ls.subrange(0, i as int)).1 is None,
            },
        decreases lines@.len() - i,
    {
        let line = &lines[i];
        proof {
            assert(ls.subrange(0, i + 1).drop_last() == ls.subrange(0, i as int));
            assert(ls.subrange(0, i + 1).last() == ls[i as int]);
        }
        match strip_prefix(line.as_slice(), "diff --git ") {
            Some(rest) => {
                current = Some(Builder::new(rest.as_slice()));
            },
            None => {
                let prev = current;
                current = match prev {
                    Some(mut b) => {
                        if !b.fits_line(line.as_slice()) {
                            proof {
                                let t = ls.subrange(0, i + 1);
                                assert(t.last() == line@);
                                assert(!starts_with(line@, "diff --git "@));
                                assert(scan(t.drop_last()).1 == Some(b.view()));
                                assert(!scan_fits(t));
                                if scan_fits(ls) {
                                    lemma_scan_fits_prefix(ls, i + 1);
                                    assert(false);
                                }
                                assert(!parse_fits(patch@));
                            }
                            return false;
                        }
                        b.line(line.as_slice());
                        Some(b)
                    },
                    None => None,
                };
            },
        }
        i = i + 1;
    }
    assert(ls.subrange(0, ls.len() as int) == ls);
    true
}

/// Parse the output of `git diff-tree -p`.
pub fn parse(patch: &str) -> (files: Vec<FileDiff>)
    requires
        parse_fits(patch@),
    ensures
        diffs_view(files@) == spec_parse(patch@),
        files@.len() == count_headers(split(patch@, '\n')),
        forall|i: int| 0 <= i < files@.len() ==> file_laws(#[trigger] files@[i]@),
{
    proof {
        law_parse(patch@);
    }
    let text = chars_of(patch);
    let lines = split_chars(text.as_slice(), '\n');
    let ghost ls = split(patch@, '\n');
    let mut files: Vec<FileDiff> = Vec::new();
    let mut current: Option<Builder> = None;
    let mut i: usize = 0;

    while i < lines.len()
        invariant
            0 <= i <= lines@.len(),
            lines@.len() == ls.len(),
            forall|k: int| 0 <= k < lines@.len() ==> #[trigger] lines@[k]@ == ls[k],
            scan_fits(ls),
            diffs_view(files@) == scan(ls.subrange(0, i as int)).0,
            match current {
                Some(b) => scan(ls.subrange(0, i as int)).1 == Some(b.view()),
                None => scan(ls.subrange(0, i as int)).1 is None,
            },
        decreases lines@.len() - i,
    {
        let line = &lines[i];
        let ghost pre = ls.subrange(0, i as int);
        proof {
            assert(ls.subrange(0, i + 1).drop_last() == pre);
            assert(ls.subrange(0, i + 1).last() == ls[i as int]);
            lemma_scan_fits_prefix(ls, i + 1);
        }
        match strip_prefix(line.as_slice(), "diff --git ") {
            Some(rest) => {
                let prev = current;
                match prev {
                    Some(b) => {
                        let built = b.build();
                        let ghost before = files@;
                        files.push(built);
                        assert(diffs_view(files@) =~= diffs_view(before).push(built@));
                    },
                    None => {},
                }
                current = Some(Builder::new(rest.as_slice()));
            },
            None => {
                let prev = current;
                current = match prev {
                    Some(mut b) => {
                        b.line(line.as_slice());
                        Some(b)
                    },
                    None => None,
                };
            },
        }
        i = i + 1;
    }
    assert(ls.subrange(0, ls.len() as int) == ls);
    match current {
        Some(b) => {
            let built = b.build();
            let ghost before = files@;
            files.push(built);
            assert(diffs_view(files@) =~= diffs_view(before).push(built@));
        },
        None => {},
    }
    assert forall|i: int| 0 <= i < files@.len() implies file_laws(#[trigger] files@[i]@) by {
        assert(diffs_view(files@)[i] == files@[i]@);
    }
    files
}

proof fn lemma_scan_fits_prefix(ls: Seq<Seq<char>>, k: int)
    requires
        scan_fits(ls),
        0 <= k <= ls.len(),
    ensures
        scan_fits(ls.subrange(0, k)),
    decreases ls.len() - k,
{
    if k < ls.len() {
        lemma_scan_fits_prefix(ls, k + 1);
        assert(ls.subrange(0, k + 1).drop_last() == ls.subrange(0, k));
    } else {
        assert(ls.subrange(0, k) == ls);
    }
}

/// The view of an optional run of characters.
pub open spec fn opt_chars(o: Option<Vec<char>>) -> Option<Seq<char>> {
    match o {
        Some(v) => Some(v@),
        None => None,
    }
}

/// The file being read, one line at a time.
pub struct Builder {
    path: Vec<char>,
    old_path: Option<Vec<char>>,
    status: FileStatus,
    binary: bool,
    added: usize,
    removed: usize,
    hunks: Vec<Hunk>,
    old_line: usize,
    new_line: usize,
    in_hunk: bool,
}

impl Builder {
    /// What the builder holds, as the spec reads it.
    pub closed spec fn view(&self) -> BuilderView {
        BuilderView {
            path: self.path@,
            old_path: opt_chars(self.old_path),
            status: self.status,
            binary: self.binary,
            added: self.added as int,
            removed: self.removed as int,
            hunks: hunks_view(self.hunks@),
            old_line: self.old_line as int,
            new_line: self.new_line as int,
            in_hunk: self.in_hunk,
        }
    }

    fn new(header: &[char]) -> (b: Builder)
        ensures
            b.view() == spec_new(header@),
    {
        let (a, b) = split_header(header);
        let path = match b {
            Some(b) => b,
            None => Vec::new(),
        };
        let out = Builder {
            path,
            old_path: a,
            status: FileStatus::Modified,
            binary: false,
            added: 0,
            removed: 0,
            hunks: Vec::new(),
            old_line: 0,
            new_line: 0,
            in_hunk: false,
        };
        assert(out.view().path == spec_new(header@).path);
        assert(hunks_view(out.hunks@) =~= Seq::empty());
        out
    }

    /// Whether the counters of the step for this line fit in a `usize`.
    fn fits_line(&self, line: &[char]) -> (b: bool)
        ensures
            b == line_fits(self.view(), line@),
    {
        if has_prefix_str(line, "@@ ") || !self.in_hunk || line.len() == 0 {
            true
        } else if line[0] == ' ' {
            self.old_line < usize::MAX && self.new_line < usize::MAX
        } else if line[0] == '+' {
            self.new_line < usize::MAX && self.added < usize::MAX
        } else if line[0] == '-' {
            self.old_line < usize::MAX && self.removed < usize::MAX
        } else {
            true
        }
    }

    fn line(&mut self, line: &[char])
        requires
            line_fits(old(self).view(), line@),
        ensures
            final(self).view() == spec_line(old(self).view(), line@),
    {
        match strip_prefix(line, "@@ ") {
            Some(rest) => {
                self.start_hunk(rest.as_slice());
                return;
            },
            None => {},
        }
        if !self.in_hunk {
            self.header_line(line);
            return;
        }
        if line.len() > 0 && line[0] == ' ' {
            let text = slice(line, 1, line.len());
            assert(text@ == line@.drop_first());
            self.row(RowKind::Context, text.as_slice());
        } else if line.len() > 0 && line[0] == '+' {
            let text = slice(line, 1, line.len());
            assert(text@ == line@.drop_first());
            self.row(RowKind::Add, text.as_slice());
        } else if line.len() > 0 && line[0] == '-' {
            let text = slice(line, 1, line.len());
            assert(text@ == line@.drop_first());
            self.row(RowKind::Remove, text.as_slice());
        } else if line.len() > 0 && line[0] == '\\' {
            self.no_newline();
        } else {
            // A line that is not a row ends the hunk.
            self.in_hunk = false;
        }
    }

    fn header_line(&mut self, line: &[char])
        ensures
            final(self).view() == spec_header_line(old(self).view(), line@),
    {
        if has_prefix_str(line, "new file mode") {
            self.status = FileStatus::Added;
        } else if has_prefix_str(line, "deleted file mode") {
            self.status = FileStatus::Deleted;
        } else if let Some(p) = strip_prefix(line, "rename from ") {
            self.status = FileStatus::Renamed;
            self.old_path = Some(unquote(p.as_slice()));
        } else if let Some(p) = strip_prefix(line, "rename to ") {
            self.path = unquote(p.as_slice());
        } else if let Some(p) = strip_prefix(line, "copy from ") {
            self.status = FileStatus::Copied;
            self.old_path = Some(unquote(p.as_slice()));
        } else if let Some(p) = strip_prefix(line, "copy to ") {
            self.path = unquote(p.as_slice());
        } else if has_prefix_str(line, "Binary files ") || has_prefix_str(line, "GIT binary patch") {
            self.binary = true;
        } else {
            let minus = match strip_prefix(line, "--- ") {
                Some(p) => strip_side(p.as_slice()),
                None => None,
            };
            if minus.is_some() {
                self.old_path = minus;
                return;
            }
            let plus = match strip_prefix(line, "+++ ") {
                Some(p) => strip_side(p.as_slice()),
                None => None,
            };
            match plus {
                Some(p) => {
                    self.path = p;
                },
                None => {},
            }
        }
    }

    fn start_hunk(&mut self, rest: &[char])
        ensures
            final(self).view() == spec_start_hunk(old(self).view(), rest@),
    {
        let marker = chars_of("@@");
        let at = match find_chars(rest, marker.as_slice()) {
            Some(at) => at,
            None => return,
        };
        let n = rest.len();
        assert(at + marker@.len() <= n);
        let ranges = slice(rest, 0, at);
        let header = slice(rest, at + marker.len(), n);
        let ranges_read = read_ranges(ranges.as_slice());
        let (old, new) = match ranges_read {
            Some(pair) => pair,
            None => return,
        };
        let trimmed = trim_chars(header.as_slice());
        let hunk = Hunk {
            old_start: old.0,
            old_lines: old.1,
            new_start: new.0,
            new_lines: new.1,
            header: string_of(trimmed.as_slice()),
            rows: Vec::new(),
        };
        self.old_line = old.0;
        self.new_line = new.0;
        self.in_hunk = true;
        let ghost before = self.hunks@;
        assert(rows_view(hunk.rows@) =~= Seq::empty());
        self.hunks.push(hunk);
        assert(hunks_view(self.hunks@) =~= hunks_view(before).push(hunk@));
    }

    fn row(&mut self, kind: RowKind, text: &[char])
        requires
            old(self).in_hunk,
            match kind {
                RowKind::Context => old(self).old_line + 1 <= usize::MAX && old(self).new_line + 1
                    <= usize::MAX,
                RowKind::Add => old(self).new_line + 1 <= usize::MAX && old(self).added + 1
                    <= usize::MAX,
                RowKind::Remove => old(self).old_line + 1 <= usize::MAX && old(self).removed + 1
                    <= usize::MAX,
            },
        ensures
            final(self).view() == spec_row(old(self).view(), kind, text@),
    {
        let (old_line, new_line) = match kind {
            RowKind::Context => {
                let pair = (Some(self.old_line), Some(self.new_line));
                self.old_line = self.old_line + 1;
                self.new_line = self.new_line + 1;
                pair
            },
            RowKind::Add => {
                let pair = (None, Some(self.new_line));
                self.new_line = self.new_line + 1;
                self.added = self.added + 1;
                pair
            },
            RowKind::Remove => {
                let pair = (Some(self.old_line), None);
                self.old_line = self.old_line + 1;
                self.removed = self.removed + 1;
                pair
            },
        };
        let row = Row {
            kind,
            old_line,
            new_line,
            text: string_of(text),
            no_newline: false,
            tokens: Vec::new(),
            words: Vec::new(),
        };
        assert(row@ == new_row(kind, old_line, new_line, text@)) by {
            assert(row.tokens@.map_values(|s: Span| s@) =~= Seq::empty());
        }
        if self.hunks.len() > 0 {
            let ghost before = self.hunks@;
            let mut last = self.hunks.pop().unwrap();
            let ghost last_before = last;
            last.rows.push(row);
            assert(rows_view(last.rows@) =~= rows_view(last_before.rows@).push(row@));
            self.hunks.push(last);
            assert(hunks_view(self.hunks@) =~= push_row(hunks_view(before), row@));
        }
    }

    fn no_newline(&mut self)
        ensures
            final(self).view() == spec_no_newline(old(self).view()),
    {
        if self.hunks.len() > 0 {
            let ghost before = self.hunks@;
            let mut last = self.hunks.pop().unwrap();
            let ghost last_before = last;
            if last.rows.len() > 0 {
                let mut r = last.rows.pop().unwrap();
                let ghost r_before = r;
                r.no_newline = true;
                last.rows.push(r);
                assert(rows_view(last.rows@) =~= rows_view(last_before.rows@).update(
                    last_before.rows@.len() - 1,
                    RowView { no_newline: true, ..r_before@ },
                ));
            }
            self.hunks.push(last);
            assert(hunks_view(self.hunks@) =~= spec_no_newline(old(self).view()).hunks);
        }
    }

    fn build(self) -> (f: FileDiff)
        ensures
            f@ == spec_build(self.view()),
    {
        let old_path = match self.status {
            FileStatus::Renamed | FileStatus::Copied => match self.old_path {
                Some(p) => Some(string_of(p.as_slice())),
                None => None,
            },
            _ => None,
        };
        FileDiff {
            file: FileEntry {
                path: string_of(self.path.as_slice()),
                old_path,
                status: self.status,
                language: String::new(),
                binary: self.binary,
                added: self.added,
                removed: self.removed,
            },
            hunks: self.hunks,
            line_count: None,
        }
    }
}

/// `a/old b/new`, with either side possibly quoted.
///
/// The two paths are only a fallback: `---` and `+++` are more reliable, and
/// a rename names both sides on its own lines.
pub fn split_header(header: &[char]) -> (out: (Option<Vec<char>>, Option<Vec<char>>))
    ensures
        (opt_chars(out.0), opt_chars(out.1)) == spec_split_header(header@),
{
    match strip_prefix(header, "a/") {
        Some(rest) => {
            let marker = chars_of(" b/");
            match find_chars(rest.as_slice(), marker.as_slice()) {
                Some(at) => {
                    let n = rest.len();
                    assert(at + marker@.len() <= n);
                    let a = slice(rest.as_slice(), 0, at);
                    let b = slice(rest.as_slice(), at + marker.len(), n);
                    (Some(a), Some(b))
                },
                None => (None, None),
            }
        },
        None => (None, None),
    }
}

/// `a/path`, `b/path`, or `/dev/null` on the side that has no file.
pub fn strip_side(value: &[char]) -> (out: Option<Vec<char>>)
    ensures
        opt_chars(out) == spec_strip_side(value@),
{
    let pieces = split_chars(value, '\t');
    let v = &pieces[0];
    let null = chars_of("/dev/null");
    if same(v.as_slice(), null.as_slice()) {
        return None;
    }
    let u = unquote(v.as_slice());
    match strip_prefix(u.as_slice(), "a/") {
        Some(cut) => Some(cut),
        None => match strip_prefix(u.as_slice(), "b/") {
            Some(cut) => Some(cut),
            None => Some(u),
        },
    }
}

/// `-12,7` or `+3` becomes `(start, count)`.
pub fn range(part: &[char], sign: char) -> (out: Option<(usize, usize)>)
    ensures
        out == spec_range(part@, sign),
{
    if part.len() == 0 || part[0] != sign {
        return None;
    }
    let p = slice(part, 1, part.len());
    assert(p@ == part@.drop_first());
    let mut comma: Vec<char> = Vec::new();
    comma.push(',');
    assert(comma@ == seq![',']);
    match find_chars(p.as_slice(), comma.as_slice()) {
        Some(i) => {
            let start = parse_usize_chars(slice(p.as_slice(), 0, i).as_slice());
            let count = parse_usize_chars(slice(p.as_slice(), i + 1, p.len()).as_slice());
            match (start, count) {
                (Some(s), Some(c)) => Some((s, c)),
                _ => None,
            }
        },
        None => match parse_usize_chars(p.as_slice()) {
            Some(s) => Some((s, 1)),
            None => None,
        },
    }
}

/// The first word of `s`, and what follows it.
pub fn first_word_of(s: &[char]) -> (out: Option<(Vec<char>, Vec<char>)>)
    ensures
        match out {
            Some((w, r)) => first_word(s@) == Some((w@, r@)),
            None => first_word(s@) is None,
        },
{
    let t = trim_start_chars(s);
    if t.len() == 0 {
        return None;
    }
    let mut n: usize = 0;
    assert(t@.subrange(0, t@.len() as int) == t@);
    while n < t.len() && !is_whitespace(t[n])
        invariant
            0 <= n <= t@.len(),
            word_len(t@) == n + word_len(t@.subrange(n as int, t@.len() as int)),
        decreases t@.len() - n,
    {
        assert(t@.subrange(n as int, t@.len() as int).drop_first() == t@.subrange(
            n + 1,
            t@.len() as int,
        ));
        n = n + 1;
    }
    assert(word_len(t@.subrange(n as int, t@.len() as int)) == 0);
    Some((slice(t.as_slice(), 0, n), slice(t.as_slice(), n, t.len())))
}

/// The two ranges of a hunk header.
pub fn read_ranges(ranges: &[char]) -> (out: Option<((usize, usize), (usize, usize))>)
    ensures
        out == hunk_ranges(ranges@),
{
    let (one, rest) = match first_word_of(ranges) {
        Some(pair) => pair,
        None => return None,
    };
    let old = match range(one.as_slice(), '-') {
        Some(r) => r,
        None => return None,
    };
    let (two, _tail) = match first_word_of(rest.as_slice()) {
        Some(pair) => pair,
        None => return None,
    };
    match range(two.as_slice(), '+') {
        Some(new) => Some((old, new)),
        None => None,
    }
}

/// Undo the C-style quoting git uses for a path with a special character.
pub fn unquote(p: &[char]) -> (out: Vec<char>)
    ensures
        out@ == spec_unquote(p@),
{
    let path = trim_end_matching(p, '\t');
    let n = path.len();
    if !(n >= 2 && path[0] == '"' && path[n - 1] == '"') {
        return path;
    }
    let inner = slice(path.as_slice(), 1, n - 1);
    let m = inner.len();
    let mut out: Vec<char> = Vec::new();
    let mut i: usize = 0;
    assert(inner@.subrange(0, m as int) == inner@);
    while i < m
        invariant
            m == inner@.len(),
            0 <= i <= m,
            out@ + unescape(inner@.subrange(i as int, m as int)) == unescape(inner@),
        decreases m - i,
    {
        let ghost rest = inner@.subrange(i as int, m as int);
        let c = inner[i];
        if c != '\\' {
            out.push(c);
            assert(rest.drop_first() == inner@.subrange(i + 1, m as int));
            assert(out@ + unescape(inner@.subrange(i + 1, m as int)) == unescape(inner@)) by {
                assert(unescape(rest) == seq![c] + unescape(rest.drop_first()));
            }
            i = i + 1;
        } else if i + 1 == m {
            out.push('\\');
            i = i + 1;
            assert(inner@.subrange(i as int, m as int) =~= Seq::<char>::empty());
        } else {
            let next = inner[i + 1];
            if next == 'n' {
                out.push('\n');
            } else if next == 't' {
                out.push('\t');
            } else if next == '"' {
                out.push('"');
            } else if next == '\\' {
                out.push('\\');
            } else {
                out.push('\\');
                out.push(next);
            }
            assert(rest.subrange(2, rest.len() as int) == inner@.subrange(i + 2, m as int));
            i = i + 2;
        }
    }
    out
}

} // verus!

verus! {

// ---------------------------------------------------------------------------
// What every parse keeps
// ---------------------------------------------------------------------------

/// How many rows of a kind a run of rows holds.
pub open spec fn count_rows(rows: Seq<RowView>, kind: RowKind) -> nat
    decreases rows.len(),
{
    if rows.len() == 0 {
        0
    } else {
        count_rows(rows.drop_last(), kind) + if rows.last().kind == kind { 1nat } else { 0nat }
    }
}

/// How many rows of a kind the hunks hold, all together.
pub open spec fn count_in_hunks(hunks: Seq<HunkView>, kind: RowKind) -> nat
    decreases hunks.len(),
{
    if hunks.len() == 0 {
        0
    } else {
        count_in_hunks(hunks.drop_last(), kind) + count_rows(hunks.last().rows, kind)
    }
}

/// A row carries the line numbers of the sides it is on, and only those.
pub open spec fn numbered(r: RowView) -> bool {
    match r.kind {
        RowKind::Context => r.old_line is Some && r.new_line is Some,
        RowKind::Add => r.old_line is None && r.new_line is Some,
        RowKind::Remove => r.old_line is Some && r.new_line is None,
    }
}

/// Every row of every hunk is numbered on its own sides.
pub open spec fn all_numbered(hunks: Seq<HunkView>) -> bool {
    forall|h: int, r: int|
        0 <= h < hunks.len() && 0 <= r < hunks[h].rows.len() ==> numbered(
            #[trigger] hunks[h].rows[r],
        )
}

/// What a builder keeps true while it reads.
pub open spec fn builder_inv(b: BuilderView) -> bool {
    &&& b.in_hunk ==> b.hunks.len() > 0
    &&& 0 <= b.added <= usize::MAX
    &&& 0 <= b.removed <= usize::MAX
    &&& b.added == count_in_hunks(b.hunks, RowKind::Add)
    &&& b.removed == count_in_hunks(b.hunks, RowKind::Remove)
    &&& all_numbered(b.hunks)
}

/// How many rows of a run stand on the old side: its context and removed
/// rows.
pub open spec fn old_side(rows: Seq<RowView>) -> nat {
    count_rows(rows, RowKind::Context) + count_rows(rows, RowKind::Remove)
}

/// How many rows of a run stand on the new side: its context and added
/// rows.
pub open spec fn new_side(rows: Seq<RowView>) -> nat {
    count_rows(rows, RowKind::Context) + count_rows(rows, RowKind::Add)
}

/// The rows of a hunk count their lines from the hunk's starts: a row's old
/// line is the old start plus the rows before it on the old side, and its
/// new line the new start plus the rows before it on the new side.
pub open spec fn in_order(h: HunkView) -> bool {
    forall|r: int|
        0 <= r < h.rows.len() ==> ((#[trigger] h.rows[r]).old_line matches Some(n) ==> n
            == h.old_start + old_side(h.rows.take(r))) && (h.rows[r].new_line matches Some(n)
            ==> n == h.new_start + new_side(h.rows.take(r)))
}

/// Every hunk counts its lines from its starts.
pub open spec fn all_in_order(hunks: Seq<HunkView>) -> bool {
    forall|h: int| 0 <= h < hunks.len() ==> in_order(#[trigger] hunks[h])
}

/// The counters of a builder stand where the rows of its open hunk leave
/// them, and every hunk read so far counts its lines in order.
pub open spec fn counters_inv(b: BuilderView) -> bool {
    &&& all_in_order(b.hunks)
    &&& b.in_hunk ==> b.old_line == b.hunks.last().old_start + old_side(b.hunks.last().rows)
        && b.new_line == b.hunks.last().new_start + new_side(b.hunks.last().rows)
}

/// The laws of one file of a parse: its counts are the counts of its rows,
/// its rows carry the numbers of their sides, each row's line numbers count
/// the rows before it from its hunk's starts, and it names an old path only
/// when it was renamed or copied.
pub open spec fn file_laws(f: FileDiffView) -> bool {
    &&& f.file.added == count_in_hunks(f.hunks, RowKind::Add)
    &&& f.file.removed == count_in_hunks(f.hunks, RowKind::Remove)
    &&& all_numbered(f.hunks)
    &&& all_in_order(f.hunks)
    &&& (f.file.old_path is Some ==> f.file.status == FileStatus::Renamed || f.file.status
        == FileStatus::Copied)
}

/// How many lines open a file.
pub open spec fn count_headers(lines: Seq<Seq<char>>) -> nat
    decreases lines.len(),
{
    if lines.len() == 0 {
        0
    } else {
        count_headers(lines.drop_last()) + if starts_with(lines.last(), "diff --git "@) {
            1nat
        } else {
            0nat
        }
    }
}

proof fn lemma_push_row_counts(hunks: Seq<HunkView>, row: RowView, kind: RowKind)
    requires
        hunks.len() > 0,
    ensures
        count_in_hunks(push_row(hunks, row), kind) == count_in_hunks(hunks, kind) + if row.kind
            == kind {
            1nat
        } else {
            0nat
        },
{
    let p = push_row(hunks, row);
    assert(p.drop_last() =~= hunks.drop_last());
    assert(p.last().rows.drop_last() =~= hunks.last().rows);
}

proof fn lemma_push_row_numbered(hunks: Seq<HunkView>, row: RowView)
    requires
        all_numbered(hunks),
        numbered(row),
    ensures
        all_numbered(push_row(hunks, row)),
{
    let p = push_row(hunks, row);
    if hunks.len() > 0 {
        assert forall|h: int, r: int|
            0 <= h < p.len() && 0 <= r < p[h].rows.len() implies numbered(
            #[trigger] p[h].rows[r],
        ) by {
            if h == hunks.len() - 1 && r == hunks.last().rows.len() {
                assert(p[h].rows[r] == row);
            } else {
                assert(p[h].rows[r] == hunks[h].rows[r]);
            }
        }
    }
}

proof fn lemma_row_inv(b: BuilderView, kind: RowKind, text: Seq<char>)
    requires
        builder_inv(b),
        b.in_hunk,
        kind == RowKind::Add ==> b.added + 1 <= usize::MAX,
        kind == RowKind::Remove ==> b.removed + 1 <= usize::MAX,
    ensures
        builder_inv(spec_row(b, kind, text)),
{
    let old_n = if kind == RowKind::Add { None } else { Some(b.old_line as usize) };
    let new_n = if kind == RowKind::Remove { None } else { Some(b.new_line as usize) };
    let row = new_row(kind, old_n, new_n, text);
    lemma_push_row_counts(b.hunks, row, RowKind::Add);
    lemma_push_row_counts(b.hunks, row, RowKind::Remove);
    lemma_push_row_numbered(b.hunks, row);
}

proof fn lemma_no_newline_inv(b: BuilderView)
    requires
        builder_inv(b),
    ensures
        builder_inv(spec_no_newline(b)),
{
    let n = spec_no_newline(b);
    if b.hunks.len() > 0 && b.hunks.last().rows.len() > 0 {
        assert(n.hunks.drop_last() =~= b.hunks.drop_last());
        assert(n.hunks.last().rows.drop_last() =~= b.hunks.last().rows.drop_last());
        assert forall|h: int, r: int|
            0 <= h < n.hunks.len() && 0 <= r < n.hunks[h].rows.len() implies numbered(
            #[trigger] n.hunks[h].rows[r],
        ) by {
            assert(numbered(b.hunks[h].rows[r]));
        }
    }
}

proof fn lemma_start_hunk_inv(b: BuilderView, rest: Seq<char>)
    requires
        builder_inv(b),
    ensures
        builder_inv(spec_start_hunk(b, rest)),
{
    let n = spec_start_hunk(b, rest);
    if n.hunks.len() == b.hunks.len() + 1 {
        assert(n.hunks.drop_last() =~= b.hunks);
        assert(n.hunks.last().rows.len() == 0);
        assert forall|h: int, r: int|
            0 <= h < n.hunks.len() && 0 <= r < n.hunks[h].rows.len() implies numbered(
            #[trigger] n.hunks[h].rows[r],
        ) by {
            assert(h < b.hunks.len());
            assert(numbered(b.hunks[h].rows[r]));
        }
    }
}

proof fn lemma_count_push(rows: Seq<RowView>, x: RowView, kind: RowKind)
    ensures
        count_rows(rows.push(x), kind) == count_rows(rows, kind) + if x.kind == kind {
            1nat
        } else {
            0nat
        },
{
    assert(rows.push(x).drop_last() =~= rows);
}

proof fn lemma_count_update_last(rows: Seq<RowView>, x: RowView, kind: RowKind)
    requires
        rows.len() > 0,
        x.kind == rows.last().kind,
    ensures
        count_rows(rows.update(rows.len() - 1, x), kind) == count_rows(rows, kind),
{
    assert(rows.update(rows.len() - 1, x).drop_last() =~= rows.drop_last());
}

proof fn lemma_row_counters(b: BuilderView, kind: RowKind, text: Seq<char>)
    requires
        builder_inv(b),
        counters_inv(b),
        b.in_hunk,
        kind != RowKind::Add ==> b.old_line + 1 <= usize::MAX,
        kind != RowKind::Remove ==> b.new_line + 1 <= usize::MAX,
    ensures
        counters_inv(spec_row(b, kind, text)),
{
    let old_n = if kind == RowKind::Add { None } else { Some(b.old_line as usize) };
    let new_n = if kind == RowKind::Remove { None } else { Some(b.new_line as usize) };
    let row = new_row(kind, old_n, new_n, text);
    let n = spec_row(b, kind, text);
    let h = b.hunks.last();
    let rows2 = h.rows.push(row);
    assert(n.hunks == push_row(b.hunks, row));
    assert(n.hunks.last() == HunkView { rows: rows2, ..h });
    lemma_count_push(h.rows, row, RowKind::Context);
    lemma_count_push(h.rows, row, RowKind::Remove);
    lemma_count_push(h.rows, row, RowKind::Add);
    assert(in_order(n.hunks.last())) by {
        let nh = n.hunks.last();
        assert forall|r: int| 0 <= r < nh.rows.len() implies ((#[trigger] nh.rows[r]).old_line matches Some(m)
            ==> m == nh.old_start + old_side(nh.rows.take(r))) && (nh.rows[r].new_line matches Some(m)
            ==> m == nh.new_start + new_side(nh.rows.take(r))) by {
            if r < h.rows.len() {
                assert(nh.rows[r] == h.rows[r]);
                assert(rows2.take(r) =~= h.rows.take(r));
                assert(in_order(b.hunks[b.hunks.len() - 1]));
            } else {
                assert(rows2.take(r) =~= h.rows);
            }
        }
    }
    assert forall|i: int| 0 <= i < n.hunks.len() implies in_order(#[trigger] n.hunks[i]) by {
        if i < b.hunks.len() - 1 {
            assert(n.hunks[i] == b.hunks[i]);
        }
    }
}

proof fn lemma_no_newline_counters(b: BuilderView)
    requires
        counters_inv(b),
    ensures
        counters_inv(spec_no_newline(b)),
{
    let n = spec_no_newline(b);
    if b.hunks.len() > 0 && b.hunks.last().rows.len() > 0 {
        let h = b.hunks.last();
        let r0 = h.rows.last();
        let x = RowView { no_newline: true, ..r0 };
        let rows2 = h.rows.update(h.rows.len() - 1, x);
        assert(n.hunks.last() == HunkView { rows: rows2, ..h });
        lemma_count_update_last(h.rows, x, RowKind::Context);
        lemma_count_update_last(h.rows, x, RowKind::Remove);
        lemma_count_update_last(h.rows, x, RowKind::Add);
        assert(in_order(n.hunks.last())) by {
            let nh = n.hunks.last();
            assert(in_order(b.hunks[b.hunks.len() - 1]));
            assert forall|r: int| 0 <= r < nh.rows.len() implies ((#[trigger] nh.rows[r]).old_line matches Some(m)
                ==> m == nh.old_start + old_side(nh.rows.take(r))) && (nh.rows[r].new_line matches Some(m)
                ==> m == nh.new_start + new_side(nh.rows.take(r))) by {
                assert(rows2.take(r) =~= h.rows.take(r));
                assert(h.rows[r].old_line == nh.rows[r].old_line);
                assert(h.rows[r].new_line == nh.rows[r].new_line);
            }
        }
        assert forall|i: int| 0 <= i < n.hunks.len() implies in_order(#[trigger] n.hunks[i]) by {
            if i < b.hunks.len() - 1 {
                assert(n.hunks[i] == b.hunks[i]);
            }
        }
    }
}

proof fn lemma_start_hunk_counters(b: BuilderView, rest: Seq<char>)
    requires
        counters_inv(b),
    ensures
        counters_inv(spec_start_hunk(b, rest)),
{
    let n = spec_start_hunk(b, rest);
    if n.hunks.len() == b.hunks.len() + 1 {
        assert(n.hunks.last().rows.len() == 0);
        assert(n.hunks.last().rows =~= Seq::<RowView>::empty());
        assert forall|i: int| 0 <= i < n.hunks.len() implies in_order(#[trigger] n.hunks[i]) by {
            if i < b.hunks.len() {
                assert(n.hunks[i] == b.hunks[i]);
            }
        }
    }
}

/// Reading a line keeps the counters where the rows leave them.
proof fn lemma_line_counters(b: BuilderView, line: Seq<char>)
    requires
        builder_inv(b),
        counters_inv(b),
        line_fits(b, line),
    ensures
        counters_inv(spec_line(b, line)),
{
    if starts_with(line, "@@ "@) {
        lemma_start_hunk_counters(b, after(line, "@@ "@));
    } else if !b.in_hunk {
    } else if line.len() > 0 && line[0] == ' ' {
        lemma_row_counters(b, RowKind::Context, line.drop_first());
    } else if line.len() > 0 && line[0] == '+' {
        lemma_row_counters(b, RowKind::Add, line.drop_first());
    } else if line.len() > 0 && line[0] == '-' {
        lemma_row_counters(b, RowKind::Remove, line.drop_first());
    } else if line.len() > 0 && line[0] == '\\' {
        lemma_no_newline_counters(b);
    }
}

/// Reading a line keeps what a builder keeps true.
pub proof fn lemma_line_inv(b: BuilderView, line: Seq<char>)
    requires
        builder_inv(b),
        line_fits(b, line),
    ensures
        builder_inv(spec_line(b, line)),
{
    if starts_with(line, "@@ "@) {
        lemma_start_hunk_inv(b, after(line, "@@ "@));
    } else if !b.in_hunk {
    } else if line.len() > 0 && line[0] == ' ' {
        lemma_row_inv(b, RowKind::Context, line.drop_first());
    } else if line.len() > 0 && line[0] == '+' {
        lemma_row_inv(b, RowKind::Add, line.drop_first());
    } else if line.len() > 0 && line[0] == '-' {
        lemma_row_inv(b, RowKind::Remove, line.drop_first());
    } else if line.len() > 0 && line[0] == '\\' {
        lemma_no_newline_inv(b);
    }
}

/// The scan keeps the laws for every file it built and the invariant for
/// the one it reads, and it holds one file per `diff --git` line.
pub proof fn lemma_scan_laws(lines: Seq<Seq<char>>)
    requires
        scan_fits(lines),
    ensures
        forall|i: int| 0 <= i < scan(lines).0.len() ==> file_laws(#[trigger] scan(lines).0[i]),
        scan(lines).1 matches Some(b) ==> builder_inv(b),
        scan(lines).1 matches Some(b) ==> counters_inv(b),
        scan(lines).0.len() + (if scan(lines).1 is Some { 1nat } else { 0nat }) == count_headers(
            lines,
        ),
    decreases lines.len(),
{
    if lines.len() > 0 {
        lemma_scan_laws(lines.drop_last());
        let (files, cur) = scan(lines.drop_last());
        let line = lines.last();
        if starts_with(line, "diff --git "@) {
            let b = spec_new(after(line, "diff --git "@));
            assert(count_in_hunks(b.hunks, RowKind::Add) == 0);
            assert(count_in_hunks(b.hunks, RowKind::Remove) == 0);
            match cur {
                Some(c) => {
                    let files2 = files.push(spec_build(c));
                    assert forall|i: int| 0 <= i < files2.len() implies file_laws(
                        #[trigger] files2[i],
                    ) by {
                        if i < files.len() {
                            assert(files2[i] == files[i]);
                        }
                    }
                },
                None => {},
            }
        } else {
            match cur {
                Some(c) => {
                    lemma_line_inv(c, line);
                    lemma_line_counters(c, line);
                },
                None => {},
            }
        }
    }
}

/// A parse has one file per `diff --git` line, and every file it gives
/// keeps the laws: its added and removed counts are the counts of its added
/// and removed rows, every row carries the line numbers of the sides it is
/// on and only those, and an old path is named only on a rename or a copy.
pub proof fn law_parse(patch: Seq<char>)
    requires
        parse_fits(patch),
    ensures
        spec_parse(patch).len() == count_headers(split(patch, '\n')),
        forall|i: int| 0 <= i < spec_parse(patch).len() ==> file_laws(#[trigger] spec_parse(patch)[i]),
{
    let lines = split(patch, '\n');
    lemma_scan_laws(lines);
    let (files, cur) = scan(lines);
    match cur {
        Some(b) => {
            let all = files.push(spec_build(b));
            assert forall|i: int| 0 <= i < all.len() implies file_laws(#[trigger] all[i]) by {
                if i < files.len() {
                    assert(all[i] == files[i]);
                }
            }
        },
        None => {},
    }
}

} // verus!
