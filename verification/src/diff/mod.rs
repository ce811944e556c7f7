//! The diff of a change: which files, and what changed inside one.

pub mod parse;
pub mod words;

pub use parse::parse;

use vstd::prelude::*;
use crate::model::{opt_view, FileEntry, FileEntryView, FileStatus};
use crate::text::{
    chars_of, copy_string, find_char, find_char_in, has_prefix_str, parse_usize, parse_usize_chars,
    rfind_char, rfind_char_in, same, slice, split, split_chars, starts_with, string_of,
};

verus! {

/// The tree of an empty commit. The base of a root commit, which has no
/// parent to diff against.
pub const EMPTY_TREE: &'static str = "4b825dc642cb6eb9a060e54bf8d69288fbee4904";

/// How the reader wants the diff read.
#[derive(Clone, Copy, Debug)]
pub struct How {
    /// Lines of unchanged code kept around a change.
    pub context: usize,
    /// Leave out what differs only by spacing.
    pub ignore_ws: bool,
    /// Colour the code.
    pub syntax: bool,
}

impl Default for How {
    /// Three lines is what git gives, and it is too few to judge a change.
    fn default() -> (h: Self)
        ensures
            h.context == 10,
            !h.ignore_ws,
            h.syntax,
    {
        How { context: 10, ignore_ws: false, syntax: true }
    }
}

/// The pieces that are not empty, in order.
pub open spec fn nonempty(ps: Seq<Seq<char>>) -> Seq<Seq<char>>
    decreases ps.len(),
{
    if ps.len() == 0 {
        ps
    } else if ps.last().len() == 0 {
        nonempty(ps.drop_last())
    } else {
        nonempty(ps.drop_last()).push(ps.last())
    }
}

/// The fields of a `-z` stream, the empty ones left out.
pub open spec fn fields_of(out: Seq<char>) -> Seq<Seq<char>> {
    nonempty(split(out, '\0'))
}

/// The field at `i`, or an empty one past the end.
pub open spec fn field(fs: Seq<Seq<char>>, i: int) -> Seq<char> {
    if 0 <= i < fs.len() {
        fs[i]
    } else {
        Seq::empty()
    }
}

/// The status a raw line names by the first letter of its last word; `R`
/// and `C` carry a score after it.
pub open spec fn status_of(info: Seq<char>) -> FileStatus {
    let code = match rfind_char(info, ' ') {
        Some(i) => info.subrange(i + 1, info.len() as int),
        None => info,
    };
    if code.len() == 0 {
        FileStatus::Modified
    } else if code[0] == 'A' {
        FileStatus::Added
    } else if code[0] == 'D' {
        FileStatus::Deleted
    } else if code[0] == 'R' {
        FileStatus::Renamed
    } else if code[0] == 'C' {
        FileStatus::Copied
    } else {
        FileStatus::Modified
    }
}

/// The raw records from field `i` on: each `:`-line and its paths, two for
/// a rename or a copy. The answer also says where the counts begin.
pub open spec fn raw_from(fs: Seq<Seq<char>>, i: int) -> (Seq<(FileStatus, Option<Seq<char>>, Seq<char>)>, int)
    decreases fs.len() + 3 - i,
{
    if i < 0 || i >= fs.len() || !starts_with(fs[i], ":"@) {
        (Seq::empty(), i)
    } else {
        let status = status_of(fs[i]);
        let first = field(fs, i + 1);
        if status == FileStatus::Renamed || status == FileStatus::Copied {
            let (rest, end) = raw_from(fs, i + 3);
            (seq![(status, Some(first), field(fs, i + 2))] + rest, end)
        } else {
            let (rest, end) = raw_from(fs, i + 2);
            (seq![(status, None, first)] + rest, end)
        }
    }
}

/// The part of a numstat record before its first tab.
pub open spec fn tab_part(r: Seq<char>, n: int) -> Option<Seq<char>> {
    match find_char(r, '\t') {
        None => if n == 0 { Some(r) } else { None },
        Some(a) => {
            let rest = r.subrange(a + 1, r.len() as int);
            if n == 0 {
                Some(r.subrange(0, a))
            } else {
                match find_char(rest, '\t') {
                    None => if n == 1 { Some(rest) } else { None },
                    Some(b) => if n == 1 {
                        Some(rest.subrange(0, b))
                    } else {
                        Some(rest.subrange(b + 1, rest.len() as int))
                    },
                }
            }
        },
    }
}

/// A count of a numstat record: git prints a dash for a binary file, and
/// what does not read as a number counts nothing.
pub open spec fn count_of(s: Seq<char>) -> usize {
    match parse_usize(s) {
        Some(n) => n,
        None => 0,
    }
}

/// The file entries of the numstat records from field `i` on. A rename
/// prints an empty path, then the old and the new one.
pub open spec fn numstat_from(fs: Seq<Seq<char>>, i: int) -> Seq<FileEntryView>
    decreases fs.len() + 3 - i,
{
    if i < 0 || i >= fs.len() {
        Seq::empty()
    } else {
        let r = fs[i];
        let added = tab_part(r, 0)->0;
        let removed = match tab_part(r, 1) {
            Some(p) => p,
            None => "0"@,
        };
        let path = match tab_part(r, 2) {
            Some(p) => p,
            None => Seq::empty(),
        };
        let entry = |old: Option<Seq<char>>, p: Seq<char>| FileEntryView {
            path: p,
            old_path: old,
            status: FileStatus::Modified,
            language: Seq::empty(),
            binary: added == "-"@ || removed == "-"@,
            added: count_of(added),
            removed: count_of(removed),
        };
        if path.len() == 0 {
            seq![entry(Some(field(fs, i + 1)), field(fs, i + 2))] + numstat_from(fs, i + 3)
        } else {
            seq![entry(None, path)] + numstat_from(fs, i + 1)
        }
    }
}

/// The first raw record of the path.
pub open spec fn raw_for(raw: Seq<(FileStatus, Option<Seq<char>>, Seq<char>)>, path: Seq<char>) -> Option<(FileStatus, Option<Seq<char>>, Seq<char>)>
    decreases raw.len(),
{
    if raw.len() == 0 {
        None
    } else if raw[0].2 == path {
        Some(raw[0])
    } else {
        raw_for(raw.drop_first(), path)
    }
}

/// An entry with the status and the old path its raw record gives, when it
/// has one.
pub open spec fn with_status(e: FileEntryView, raw: Seq<(FileStatus, Option<Seq<char>>, Seq<char>)>) -> FileEntryView {
    match raw_for(raw, e.path) {
        Some((status, old, _)) => FileEntryView { status, old_path: old, ..e },
        None => e,
    }
}

/// The files of a change out of one `-z` stream: the raw block names the
/// status of each file, then the numstat block counts its lines.
pub open spec fn spec_parse_files(out: Seq<char>) -> Seq<FileEntryView> {
    let fs = fields_of(out);
    let (raw, end) = raw_from(fs, 0);
    numstat_from(fs, end).map_values(|e: FileEntryView| with_status(e, raw))
}

proof fn lemma_split_len(s: Seq<char>, sep: char)
    ensures
        split(s, sep).len() <= s.len() + 1,
    decreases s.len(),
{
    if s.len() > 0 {
        lemma_split_len(s.drop_last(), sep);
        crate::text::lemma_split_nonempty(s.drop_last(), sep);
    }
}

proof fn lemma_nonempty_len(ps: Seq<Seq<char>>)
    ensures
        nonempty(ps).len() <= ps.len(),
    decreases ps.len(),
{
    if ps.len() > 0 {
        lemma_nonempty_len(ps.drop_last());
    }
}

/// The views of a run of character vectors.
pub open spec fn runs(v: Seq<Vec<char>>) -> Seq<Seq<char>> {
    v.map_values(|r: Vec<char>| r@)
}

/// The fields of a `-z` stream, the empty ones left out.
fn fields(out: &str) -> (fs: Vec<Vec<char>>)
    ensures
        runs(fs@) == fields_of(out@),
        fs@.len() <= out@.len() + 1,
{
    let v = chars_of(out);
    let pieces = split_chars(v.as_slice(), '\0');
    let ghost ps = split(out@, '\0');
    let mut fs: Vec<Vec<char>> = Vec::new();
    let mut i: usize = 0;
    while i < pieces.len()
        invariant
            i <= pieces@.len(),
            pieces@.len() == ps.len(),
            ps == split(out@, '\0'),
            forall|k: int| 0 <= k < pieces@.len() ==> #[trigger] pieces@[k]@ == ps[k],
            runs(fs@) == nonempty(ps.subrange(0, i as int)),
        decreases pieces@.len() - i,
    {
        let ghost sub = ps.subrange(0, i + 1);
        assert(sub.drop_last() == ps.subrange(0, i as int));
        assert(sub.last() == pieces@[i as int]@);
        if pieces[i].len() > 0 {
            let ghost before = runs(fs@);
            let piece = slice(pieces[i].as_slice(), 0, pieces[i].len());
            assert(pieces@[i as int]@.subrange(0, pieces@[i as int]@.len() as int) == pieces@[i as int]@);
            fs.push(piece);
            assert(runs(fs@) =~= before.push(sub.last()));
        }
        i = i + 1;
    }
    assert(ps.subrange(0, ps.len() as int) == ps);
    proof {
        lemma_split_len(out@, '\0');
        lemma_nonempty_len(ps);
    }
    fs
}

/// The field at `i`, or an empty one past the end.
fn field_at(fs: &Vec<Vec<char>>, i: usize) -> (out: String)
    ensures
        out@ == field(runs(fs@), i as int),
{
    if i < fs.len() {
        string_of(fs[i].as_slice())
    } else {
        String::new()
    }
}

/// The status a raw line names.
fn status_in(info: &Vec<char>) -> (s: FileStatus)
    ensures
        s == status_of(info@),
{
    let n = info.len();
    let code = match rfind_char_in(info.as_slice(), ' ') {
        Some(i) => slice(info.as_slice(), i + 1, n),
        None => slice(info.as_slice(), 0, n),
    };
    assert(info@.subrange(0, n as int) == info@);
    if code.len() == 0 {
        FileStatus::Modified
    } else if code[0] == 'A' {
        FileStatus::Added
    } else if code[0] == 'D' {
        FileStatus::Deleted
    } else if code[0] == 'R' {
        FileStatus::Renamed
    } else if code[0] == 'C' {
        FileStatus::Copied
    } else {
        FileStatus::Modified
    }
}

proof fn lemma_rfind_last(s: Seq<char>, c: char, w: int)
    requires
        0 <= w <= s.len(),
        w == 0 || s[w - 1] == c,
        forall|m: int| w <= m < s.len() ==> s[m] != c,
    ensures
        rfind_char(s, c) == if w == 0 { None::<int> } else { Some(w - 1) },
    decreases s.len(),
{
    if s.len() > 0 && s.len() > w {
        let t = s.drop_last();
        assert forall|m: int| w <= m < t.len() implies t[m] != c by {
            assert(t[m] == s[m]);
        }
        if w > 0 {
            assert(t[w - 1] == s[w - 1]);
        }
        lemma_rfind_last(t, c, w);
    }
}

/// The status letter of a raw line decides its status: the first letter of
/// the last word, the one after the last space, gives Deleted for `D`,
/// Added for `A`, Renamed for `R`, Copied for `C`, and Modified for any
/// other letter.
pub proof fn law_the_status_letter_decides(info: Seq<char>, w: int)
    requires
        0 <= w < info.len(),
        w == 0 || info[w - 1] == ' ',
        forall|m: int| w <= m < info.len() ==> info[m] != ' ',
    ensures
        info[w] == 'D' ==> status_of(info) == FileStatus::Deleted,
        info[w] == 'A' ==> status_of(info) == FileStatus::Added,
        info[w] == 'R' ==> status_of(info) == FileStatus::Renamed,
        info[w] == 'C' ==> status_of(info) == FileStatus::Copied,
        info[w] != 'D' && info[w] != 'A' && info[w] != 'R' && info[w] != 'C' ==> status_of(info)
            == FileStatus::Modified,
{
    lemma_rfind_last(info, ' ', w);
    if w > 0 {
        assert(info.subrange(w, info.len() as int)[0] == info[w]);
    }
}

/// A file the first raw record names takes the status of that record's
/// letter: an entry of the parse with the path the record names (the
/// second path of a rename or a copy) is
/// Deleted when the letter is `D`, Added for `A`, Renamed for `R`, Copied
/// for `C`, and Modified for any other letter.
pub proof fn law_an_entry_takes_its_status_letter(out: Seq<char>, w: int, j: int)
    requires
        fields_of(out).len() > 2,
        starts_with(fields_of(out)[0], ":"@),
        0 <= w < fields_of(out)[0].len(),
        w == 0 || fields_of(out)[0][w - 1] == ' ',
        forall|m: int| w <= m < fields_of(out)[0].len() ==> fields_of(out)[0][m] != ' ',
        0 <= j < spec_parse_files(out).len(),
        spec_parse_files(out)[j].path == if fields_of(out)[0][w] == 'R' || fields_of(out)[0][w] == 'C' {
            fields_of(out)[2]
        } else {
            fields_of(out)[1]
        },
    ensures
        fields_of(out)[0][w] == 'D' ==> spec_parse_files(out)[j].status == FileStatus::Deleted,
        fields_of(out)[0][w] == 'A' ==> spec_parse_files(out)[j].status == FileStatus::Added,
        fields_of(out)[0][w] == 'R' ==> spec_parse_files(out)[j].status == FileStatus::Renamed,
        fields_of(out)[0][w] == 'C' ==> spec_parse_files(out)[j].status == FileStatus::Copied,
        fields_of(out)[0][w] != 'D' && fields_of(out)[0][w] != 'A' && fields_of(out)[0][w] != 'R'
            && fields_of(out)[0][w] != 'C' ==> spec_parse_files(out)[j].status
            == FileStatus::Modified,
{
    let fs = fields_of(out);
    law_the_status_letter_decides(fs[0], w);
    let (raw, end) = raw_from(fs, 0);
    let st = status_of(fs[0]);
    assert(raw.len() > 0 && raw[0].0 == st && raw[0].2 == spec_parse_files(out)[j].path) by {
        if st == FileStatus::Renamed || st == FileStatus::Copied {
            assert(field(fs, 2) == fs[2]);
        } else {
            assert(field(fs, 1) == fs[1]);
        }
    }
    let nums = numstat_from(fs, end);
    assert(spec_parse_files(out)[j] == with_status(nums[j], raw));
}

/// The views of raw records.
pub open spec fn raws_view(v: Seq<(FileStatus, Option<String>, String)>) -> Seq<(FileStatus, Option<Seq<char>>, Seq<char>)> {
    v.map_values(|r: (FileStatus, Option<String>, String)| (r.0, opt_view(r.1), r.2@))
}

/// `:100644 100644 <sha> <sha> R100`, then the paths of that file.
pub fn parse_raw(fs: &Vec<Vec<char>>) -> (out: (Vec<(FileStatus, Option<String>, String)>, usize))
    requires
        fs@.len() + 3 <= usize::MAX,
    ensures
        (raws_view(out.0@), out.1 as int) == raw_from(runs(fs@), 0),
{
    let ghost f = runs(fs@);
    let mut out: Vec<(FileStatus, Option<String>, String)> = Vec::new();
    let mut i: usize = 0;
    while i < fs.len() && has_prefix_str(fs[i].as_slice(), ":")
        invariant
            i <= fs@.len() + 3,
            fs@.len() + 3 <= usize::MAX,
            f == runs(fs@),
            raw_from(f, 0) == (raws_view(out@) + raw_from(f, i as int).0, raw_from(f, i as int).1),
        decreases fs@.len() + 3 - i,
    {
        assert(f[i as int] == fs@[i as int]@);
        let status = status_in(&fs[i]);
        let first = field_at(fs, i + 1);
        let ghost before = raws_view(out@);
        if status == FileStatus::Renamed || status == FileStatus::Copied {
            let new = field_at(fs, i + 2);
            let ghost rec = (status, Some(first@), new@);
            out.push((status, Some(first), new));
            assert(raws_view(out@) =~= before.push(rec));
            assert(raw_from(f, i as int).0 == seq![rec] + raw_from(f, i + 3).0);
            assert(before + raw_from(f, i as int).0 =~= raws_view(out@) + raw_from(f, i + 3).0);
            i = i + 3;
        } else {
            let ghost rec = (status, None::<Seq<char>>, first@);
            out.push((status, None, first));
            assert(raws_view(out@) =~= before.push(rec));
            assert(raw_from(f, i as int).0 == seq![rec] + raw_from(f, i + 2).0);
            assert(before + raw_from(f, i as int).0 =~= raws_view(out@) + raw_from(f, i + 2).0);
            i = i + 2;
        }
    }
    proof {
        if i < fs@.len() {
            assert(f[i as int] == fs@[i as int]@);
        }
        assert(raw_from(f, i as int).0 == Seq::<(FileStatus, Option<Seq<char>>, Seq<char>)>::empty());
        assert(raws_view(out@) + raw_from(f, i as int).0 =~= raws_view(out@));
    }
    (out, i)
}

/// The part of a record before its first tab, between its first two, and
/// after its second, when the record has them.
fn tab_parts(r: &Vec<char>) -> (out: (Vec<char>, Option<Vec<char>>, Option<Vec<char>>))
    ensures
        Some(out.0@) == tab_part(r@, 0),
        match out.1 { Some(p) => tab_part(r@, 1) == Some(p@), None => tab_part(r@, 1) is None },
        match out.2 { Some(p) => tab_part(r@, 2) == Some(p@), None => tab_part(r@, 2) is None },
{
    let n = r.len();
    match find_char_in(r.as_slice(), '\t') {
        None => {
            assert(r@.subrange(0, n as int) == r@);
            (slice(r.as_slice(), 0, n), None, None)
        },
        Some(a) => {
            let first = slice(r.as_slice(), 0, a);
            let rest = slice(r.as_slice(), a + 1, n);
            let m = rest.len();
            match find_char_in(rest.as_slice(), '\t') {
                None => {
                    assert(rest@.subrange(0, m as int) == rest@);
                    (first, Some(slice(rest.as_slice(), 0, m)), None)
                },
                Some(b) => (first, Some(slice(rest.as_slice(), 0, b)), Some(slice(rest.as_slice(), b + 1, m))),
            }
        },
    }
}

/// The views of file entries.
pub open spec fn entries_view(v: Seq<FileEntry>) -> Seq<FileEntryView> {
    v.map_values(|e: FileEntry| e@)
}

/// The file entries of the numstat records from field `from` on.
pub fn parse_numstat(fs: &Vec<Vec<char>>, from: usize) -> (out: Vec<FileEntry>)
    requires
        fs@.len() + 3 <= usize::MAX,
    ensures
        entries_view(out@) == numstat_from(runs(fs@), from as int),
{
    let ghost f = runs(fs@);
    let mut out: Vec<FileEntry> = Vec::new();
    let mut i = from;
    while i < fs.len()
        invariant
            fs@.len() + 3 <= usize::MAX,
            f == runs(fs@),
            numstat_from(f, from as int) == entries_view(out@) + numstat_from(f, i as int),
        decreases fs@.len() + 3 - i,
    {
        assert(f[i as int] == fs@[i as int]@);
        let (added, removed, path) = tab_parts(&fs[i]);
        let removed = match removed {
            Some(p) => p,
            None => chars_of("0"),
        };
        let path = match path {
            Some(p) => p,
            None => Vec::new(),
        };
        let dash = chars_of("-");
        let binary = same(added.as_slice(), dash.as_slice()) || same(removed.as_slice(), dash.as_slice());
        let a = match parse_usize_chars(added.as_slice()) {
            Some(x) => x,
            None => 0,
        };
        let d = match parse_usize_chars(removed.as_slice()) {
            Some(x) => x,
            None => 0,
        };
        let ghost before = entries_view(out@);
        if path.len() == 0 {
            let old = field_at(fs, i + 1);
            let new = field_at(fs, i + 2);
            let e = FileEntry {
                path: new,
                old_path: Some(old),
                status: FileStatus::Modified,
                language: String::new(),
                binary,
                added: a,
                removed: d,
            };
            let ghost ev = e@;
            out.push(e);
            assert(entries_view(out@) =~= before.push(ev));
            assert(numstat_from(f, i as int) == seq![ev] + numstat_from(f, i + 3));
            assert(before + numstat_from(f, i as int) =~= entries_view(out@) + numstat_from(f, i + 3));
            i = i + 3;
        } else {
            let e = FileEntry {
                path: string_of(path.as_slice()),
                old_path: None,
                status: FileStatus::Modified,
                language: String::new(),
                binary,
                added: a,
                removed: d,
            };
            let ghost ev = e@;
            out.push(e);
            assert(entries_view(out@) =~= before.push(ev));
            assert(numstat_from(f, i as int) == seq![ev] + numstat_from(f, i + 1));
            assert(before + numstat_from(f, i as int) =~= entries_view(out@) + numstat_from(f, i + 1));
            i = i + 1;
        }
    }
    assert(entries_view(out@) + numstat_from(f, i as int) =~= entries_view(out@));
    out
}

/// The first raw record of the path.
fn find_raw(raw: &Vec<(FileStatus, Option<String>, String)>, path: &String) -> (out: Option<usize>)
    ensures
        match out {
            Some(k) => k < raw@.len() && raw_for(raws_view(raw@), path@) == Some(raws_view(raw@)[k as int]),
            None => raw_for(raws_view(raw@), path@) is None,
        },
{
    let ghost r = raws_view(raw@);
    let mut i: usize = 0;
    assert(r.subrange(0, r.len() as int) == r);
    while i < raw.len()
        invariant
            i <= raw@.len(),
            r == raws_view(raw@),
            raw_for(r, path@) == raw_for(r.subrange(i as int, r.len() as int), path@),
        decreases raw@.len() - i,
    {
        let ghost rest = r.subrange(i as int, r.len() as int);
        assert(rest[0] == r[i as int]);
        assert(rest.drop_first() == r.subrange(i + 1, r.len() as int));
        if crate::text::same_str(raw[i].2.as_str(), path.as_str()) {
            return Some(i);
        }
        i = i + 1;
    }
    None
}

/// The raw block, then the numstat block, out of one `-z` stream.
///
/// The stream is held in memory, so it has fewer characters than half the
/// address space.
pub fn parse_files(out: &str) -> (entries: Vec<FileEntry>)
    requires
        out@.len() <= isize::MAX,
    ensures
        entries_view(entries@) == spec_parse_files(out@),
{
    let fs = fields(out);
    let (raw, end) = parse_raw(&fs);
    let listed = parse_numstat(&fs, end);
    let ghost rv = raws_view(raw@);
    let ghost lv = entries_view(listed@);
    let mut entries: Vec<FileEntry> = Vec::new();
    let mut rest = listed;
    let n = rest.len();
    let mut i: usize = 0;
    while i < n
        invariant
            i <= n,
            n == lv.len(),
            rv == raws_view(raw@),
            entries_view(rest@) == lv.subrange(i as int, n as int),
            entries_view(entries@) == lv.subrange(0, i as int).map_values(|e: FileEntryView| with_status(e, rv)),
        decreases n - i,
    {
        assert(entries_view(rest@).len() == rest@.len());
        assert(entries_view(rest@)[0] == rest@[0]@);
        assert(lv.subrange(i as int, n as int)[0] == lv[i as int]);
        let ghost prior = rest@;
        let mut e = rest.remove(0);
        assert forall|k: int| 0 <= k < rest@.len() implies #[trigger] rest@[k]@ == lv[i + 1 + k] by {
            assert(rest@[k] == prior[k + 1]);
            assert(entries_view(prior)[k + 1] == prior[k + 1]@);
        }
        assert(entries_view(rest@) =~= lv.subrange(i + 1, n as int));
        match find_raw(&raw, &e.path) {
            Some(k) => {
                e.status = raw[k].0;
                e.old_path = match &raw[k].1 {
                    Some(o) => Some(copy_string(o)),
                    None => None,
                };
            },
            None => {},
        }
        let ghost before = entries_view(entries@);
        let ghost ev = e@;
        entries.push(e);
        assert(entries_view(entries@) =~= before.push(ev));
        assert(lv.subrange(0, i + 1).map_values(|e: FileEntryView| with_status(e, rv)) =~= lv.subrange(0, i as int).map_values(
            |e: FileEntryView| with_status(e, rv),
        ).push(with_status(lv[i as int], rv)));
        i = i + 1;
    }
    assert(lv.subrange(0, n as int) == lv);
    entries
}

/// A copy of a file list.
fn copy_entries(v: &Vec<FileEntry>) -> (out: Vec<FileEntry>)
    ensures
        entries_view(out@) == entries_view(v@),
{
    let mut out: Vec<FileEntry> = Vec::new();
    let mut i: usize = 0;
    while i < v.len()
        invariant
            i <= v@.len(),
            entries_view(out@) == entries_view(v@).subrange(0, i as int),
        decreases v@.len() - i,
    {
        let e = &v[i];
        let ghost before = entries_view(out@);
        out.push(FileEntry {
            path: copy_string(&e.path),
            old_path: crate::text::copy_opt(&e.old_path),
            status: e.status,
            language: copy_string(&e.language),
            binary: e.binary,
            added: e.added,
            removed: e.removed,
        });
        assert(entries_view(out@) =~= before.push(e@));
        assert(entries_view(v@).subrange(0, i + 1) =~= entries_view(v@).subrange(0, i as int).push(e@));
        i = i + 1;
    }
    assert(entries_view(v@).subrange(0, v@.len() as int) =~= entries_view(v@));
    out
}

/// What a file list is kept under: the two trees, and whether spacing is
/// left out. Of the options of a diff only `-w` changes which files differ.
pub open spec fn list_key(base: Seq<char>, rev: Seq<char>, ignore_ws: bool) -> Seq<char> {
    base + " "@ + rev + " "@ + if ignore_ws {
        "true"@
    } else {
        "false"@
    }
}

/// What a set of kept lists holds under a key: the first entry with it.
pub open spec fn kept_under(lists: Seq<(Seq<char>, Seq<FileEntryView>)>, key: Seq<char>) -> Option<Seq<FileEntryView>>
    decreases lists.len(),
{
    if lists.len() == 0 {
        None
    } else if lists[0].0 == key {
        Some(lists[0].1)
    } else {
        kept_under(lists.drop_first(), key)
    }
}

/// The file lists already read, by the pair of trees they were read for.
///
/// Every caller gets its own copy, because a reader edits what it takes:
/// the language of each entry is filled in, and between two patch sets the
/// rows the rebase brought are dropped.
pub struct FileLists {
    kept: Vec<(String, Vec<FileEntry>)>,
}

impl Default for FileLists {
    fn default() -> (f: FileLists)
        ensures
            f.wf(),
            f.lists().len() == 0,
    {
        FileLists::new()
    }
}

impl FileLists {
    /// The lists kept, as plain values.
    pub closed spec fn lists(&self) -> Seq<(Seq<char>, Seq<FileEntryView>)> {
        self.kept@.map_values(|e: (String, Vec<FileEntry>)| (e.0@, entries_view(e.1@)))
    }

    /// What is kept for a key.
    pub open spec fn kept_for(&self, key: Seq<char>) -> Option<Seq<FileEntryView>> {
        kept_under(self.lists(), key)
    }

    /// No key is kept twice.
    pub open spec fn wf(&self) -> bool {
        forall|i: int, j: int| 0 <= i < j < self.lists().len() ==> (#[trigger] self.lists()[i]).0 != (#[trigger] self.lists()[j]).0
    }

    /// Nothing kept yet.
    pub fn new() -> (f: FileLists)
        ensures
            f.wf(),
            f.lists().len() == 0,
    {
        let f = FileLists { kept: Vec::new() };
        assert(f.lists() =~= Seq::empty());
        f
    }

    /// The key a list is kept under.
    pub fn key(base: &str, rev: &str, how: &How) -> (out: String)
        ensures
            out@ == list_key(base@, rev@, how.ignore_ws),
    {
        let mut v = chars_of(base);
        crate::text::extend_str(&mut v, " ");
        crate::text::extend_str(&mut v, rev);
        crate::text::extend_str(&mut v, " ");
        if how.ignore_ws {
            crate::text::extend_str(&mut v, "true");
        } else {
            crate::text::extend_str(&mut v, "false");
        }
        string_of(v.as_slice())
    }

    /// Where a key is kept.
    fn find(&self, key: &str) -> (out: Option<usize>)
        ensures
            match out {
                Some(i) => i < self.kept@.len() && self.kept_for(key@) == Some(entries_view(self.kept@[i as int].1@))
                    && self.kept@[i as int].0@ == key@,
                None => self.kept_for(key@) is None,
            },
    {
        let ghost lv = self.lists();
        let mut i: usize = 0;
        assert(lv.subrange(0, lv.len() as int) =~= lv);
        while i < self.kept.len()
            invariant
                i <= self.kept@.len(),
                lv == self.lists(),
                lv.len() == self.kept@.len(),
                kept_under(lv, key@) == kept_under(lv.subrange(i as int, lv.len() as int), key@),
            decreases self.kept@.len() - i,
        {
            let ghost rest = lv.subrange(i as int, lv.len() as int);
            assert(rest[0] == lv[i as int]);
            assert(lv[i as int] == (self.kept@[i as int].0@, entries_view(self.kept@[i as int].1@)));
            assert(rest.drop_first() =~= lv.subrange(i + 1, lv.len() as int));
            if crate::text::same_str(self.kept[i].0.as_str(), key) {
                return Some(i);
            }
            i = i + 1;
        }
        assert(lv.subrange(i as int, lv.len() as int) =~= Seq::<(Seq<char>, Seq<FileEntryView>)>::empty());
        None
    }

    /// A copy of the list kept for a pair of trees, when one is kept.
    pub fn get(&self, base: &str, rev: &str, how: &How) -> (out: Option<Vec<FileEntry>>)
        ensures
            match out {
                Some(v) => self.kept_for(list_key(base@, rev@, how.ignore_ws)) == Some(entries_view(v@)),
                None => self.kept_for(list_key(base@, rev@, how.ignore_ws)) is None,
            },
    {
        let key = Self::key(base, rev, how);
        match self.find(key.as_str()) {
            Some(i) => Some(copy_entries(&self.kept[i].1)),
            None => None,
        }
    }

    /// Keep the list read for a pair of trees: a later list replaces the one
    /// kept under the same key, and every other stays.
    pub fn keep(&mut self, base: &str, rev: &str, how: &How, entries: &Vec<FileEntry>)
        requires
            old(self).wf(),
        ensures
            final(self).wf(),
            final(self).kept_for(list_key(base@, rev@, how.ignore_ws)) == Some(entries_view(entries@)),
            forall|k: Seq<char>| k != list_key(base@, rev@, how.ignore_ws) ==> #[trigger] final(self).kept_for(k)
                == old(self).kept_for(k),
    {
        let key = Self::key(base, rev, how);
        let ghost lv = self.lists();
        let ghost kv = key@;
        let ghost ev = entries_view(entries@);
        match self.find(key.as_str()) {
            Some(i) => {
                let copy = copy_entries(entries);
                proof {
                    lemma_replace_kept(lv, i as int, kv, ev);
                }
                self.kept.set(i, (key, copy));
                assert(self.lists() =~= lv.update(i as int, (kv, ev)));
                assert forall|a: int, b: int| 0 <= a < b < self.lists().len() implies (#[trigger] self.lists()[a]).0
                    != (#[trigger] self.lists()[b]).0 by {
                    assert(self.lists()[a].0 == lv[a].0);
                    assert(self.lists()[b].0 == lv[b].0);
                }
            },
            None => {
                let copy = copy_entries(entries);
                proof {
                    lemma_push_kept(lv, kv, ev);
                }
                self.kept.push((key, copy));
                assert(self.lists() =~= lv.push((kv, ev)));
                assert forall|a: int, b: int| 0 <= a < b < self.lists().len() implies (#[trigger] self.lists()[a]).0
                    != (#[trigger] self.lists()[b]).0 by {
                    assert(self.lists()[a] == lv[a]);
                    if b < lv.len() {
                        assert(self.lists()[b] == lv[b]);
                    }
                }
            },
        }
    }

    /// How many lists are kept.
    pub fn count(&self) -> (n: usize)
        ensures
            n == self.lists().len(),
    {
        self.kept.len()
    }
}

proof fn lemma_push_kept(lists: Seq<(Seq<char>, Seq<FileEntryView>)>, key: Seq<char>, value: Seq<FileEntryView>)
    requires
        kept_under(lists, key) is None,
    ensures
        kept_under(lists.push((key, value)), key) == Some(value),
        forall|k: Seq<char>| k != key ==> #[trigger] kept_under(lists.push((key, value)), k) == kept_under(lists, k),
        forall|i: int| 0 <= i < lists.len() ==> (#[trigger] lists[i]).0 != key,
    decreases lists.len(),
{
    let p = lists.push((key, value));
    if lists.len() > 0 {
        assert(p.drop_first() =~= lists.drop_first().push((key, value)));
        assert(p[0] == lists[0]);
        lemma_push_kept(lists.drop_first(), key, value);
        assert forall|k: Seq<char>| k != key implies #[trigger] kept_under(p, k) == kept_under(lists, k) by {
            assert(kept_under(lists.drop_first().push((key, value)), k) == kept_under(lists.drop_first(), k));
        }
        assert forall|i: int| 0 <= i < lists.len() implies (#[trigger] lists[i]).0 != key by {
            if i > 0 {
                assert(lists[i] == lists.drop_first()[i - 1]);
            }
        }
    } else {
        assert(p.drop_first() =~= Seq::<(Seq<char>, Seq<FileEntryView>)>::empty());
        assert forall|k: Seq<char>| k != key implies #[trigger] kept_under(p, k) == kept_under(lists, k) by {
            assert(p[0].0 == key);
            assert(kept_under(p.drop_first(), k) is None);
        }
    }
}

proof fn lemma_replace_kept(lists: Seq<(Seq<char>, Seq<FileEntryView>)>, i: int, key: Seq<char>, value: Seq<FileEntryView>)
    requires
        0 <= i < lists.len(),
        lists[i].0 == key,
        forall|a: int, b: int| 0 <= a < b < lists.len() ==> (#[trigger] lists[a]).0 != (#[trigger] lists[b]).0,
    ensures
        kept_under(lists.update(i, (key, value)), key) == Some(value),
        forall|k: Seq<char>| k != key ==> #[trigger] kept_under(lists.update(i, (key, value)), k) == kept_under(lists, k),
    decreases lists.len(),
{
    let u = lists.update(i, (key, value));
    if i == 0 {
        assert(u.drop_first() =~= lists.drop_first());
    } else {
        assert(u.drop_first() =~= lists.drop_first().update(i - 1, (key, value)));
        assert(lists[0].0 != key);
        assert forall|a: int, b: int| 0 <= a < b < lists.drop_first().len() implies (#[trigger] lists.drop_first()[a]).0
            != (#[trigger] lists.drop_first()[b]).0 by {
            assert(lists.drop_first()[a] == lists[a + 1]);
            assert(lists.drop_first()[b] == lists[b + 1]);
        }
        lemma_replace_kept(lists.drop_first(), i - 1, key, value);
        assert forall|k: Seq<char>| k != key implies #[trigger] kept_under(u, k) == kept_under(lists, k) by {
            assert(u[0] == lists[0]);
            assert(kept_under(lists.drop_first().update(i - 1, (key, value)), k) == kept_under(lists.drop_first(), k));
        }
    }
}

} // verus!
