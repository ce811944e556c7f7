//! The series as text, for the command line.

use vstd::prelude::*;
use crate::export::pad_left;
use crate::model::{Boundary, BoundaryKind, ChangeSummary, FileEntry, FileStatus, ParentInfo, Series};
use crate::series::walk::short;
use crate::text::{chars_of, decimal, decimal_of, extend, extend_str, same_str, slice, string_of};

verus! {

/// One change and the files it touches.
pub struct ChangeFiles {
    pub key: String,
    pub files: Vec<FileEntry>,
}

/// The letter of a status, as `git status --short` writes it.
pub open spec fn status_letter(s: FileStatus) -> Seq<char> {
    match s {
        FileStatus::Added => "A"@,
        FileStatus::Modified => "M"@,
        FileStatus::Deleted => "D"@,
        FileStatus::Renamed => "R"@,
        FileStatus::Copied => "C"@,
    }
}

/// One file of a change: its status, its name (the old one first on a
/// rename or a copy), and its counts, or `binary`.
pub open spec fn spec_file_line(f: FileEntry) -> Seq<char> {
    let name = match f.old_path {
        Some(old) => old@ + " -> "@ + f.path@,
        None => f.path@,
    };
    status_letter(f.status) + " "@ + name + if f.binary {
        "  binary"@
    } else {
        "  +"@ + decimal(f.added as nat) + " -"@ + decimal(f.removed as nat)
    }
}

/// One file of a change.
pub fn file_line(file: &FileEntry) -> (out: String)
    ensures
        out@ == spec_file_line(*file),
{
    let status = match file.status {
        FileStatus::Added => "A",
        FileStatus::Modified => "M",
        FileStatus::Deleted => "D",
        FileStatus::Renamed => "R",
        FileStatus::Copied => "C",
    };
    let mut v = chars_of(status);
    extend_str(&mut v, " ");
    match &file.old_path {
        Some(old) => {
            extend_str(&mut v, old.as_str());
            extend_str(&mut v, " -> ");
            extend_str(&mut v, file.path.as_str());
        },
        None => extend_str(&mut v, file.path.as_str()),
    }
    if file.binary {
        extend_str(&mut v, "  binary");
    } else {
        extend_str(&mut v, "  +");
        extend(&mut v, decimal_of(file.added).as_slice());
        extend_str(&mut v, " -");
        extend(&mut v, decimal_of(file.removed).as_slice());
    }
    let s = string_of(v.as_slice());
    assert(s@ =~= spec_file_line(*file));
    s
}

/// The name of a boundary kind on the last line.
pub open spec fn kind_name(k: BoundaryKind) -> Seq<char> {
    match k {
        BoundaryKind::Merge => "merge"@,
        BoundaryKind::Tag => "tag"@,
        BoundaryKind::Base => "base"@,
        BoundaryKind::Guess => "guess"@,
        BoundaryKind::Batch => "batch"@,
        BoundaryKind::Root => "root"@,
    }
}

/// The parents of a merge, each as its short hash and its name, joined by
/// `  |  `.
pub open spec fn parents_text(ps: Seq<ParentInfo>) -> Seq<char>
    decreases ps.len(),
{
    if ps.len() == 0 {
        Seq::empty()
    } else {
        let one = short(ps.last().commit@) + " "@ + ps.last().name@;
        if ps.len() == 1 {
            one
        } else {
            parents_text(ps.drop_last()) + "  |  "@ + one
        }
    }
}

/// Why the walk stopped: its kind and reason, whether it was a guess, and
/// for a merge its subject and its parents.
pub open spec fn spec_boundary_line(b: Boundary) -> Seq<char> {
    "boundary: "@ + kind_name(b.kind) + " — "@ + b.reason@ + (if b.guessed {
        " (a guess: load more to go further)"@
    } else {
        Seq::empty()
    }) + match b.merge {
        Some(m) => "\n          "@ + m.subject@ + "\n          "@ + parents_text(m.parents@),
        None => Seq::empty(),
    }
}

/// The first twelve characters of a hash.
fn short_of(hash: &str) -> (out: Vec<char>)
    ensures
        out@ == short(hash@),
{
    let v = chars_of(hash);
    if v.len() <= 12 {
        v
    } else {
        slice(v.as_slice(), 0, 12)
    }
}

/// Why the walk stopped.
pub fn boundary_line(series: &Series) -> (out: String)
    ensures
        out@ == spec_boundary_line(series.boundary),
{
    let b = &series.boundary;
    let what = match b.kind {
        BoundaryKind::Merge => "merge",
        BoundaryKind::Tag => "tag",
        BoundaryKind::Base => "base",
        BoundaryKind::Guess => "guess",
        BoundaryKind::Batch => "batch",
        BoundaryKind::Root => "root",
    };
    let mut v = chars_of("boundary: ");
    extend_str(&mut v, what);
    extend_str(&mut v, " — ");
    extend_str(&mut v, b.reason.as_str());
    if b.guessed {
        extend_str(&mut v, " (a guess: load more to go further)");
    }
    let ghost head = v@;
    match &b.merge {
        Some(m) => {
            extend_str(&mut v, "\n          ");
            extend_str(&mut v, m.subject.as_str());
            extend_str(&mut v, "\n          ");
            let ghost mid = v@;
            let ps = &m.parents;
            let mut i: usize = 0;
            while i < ps.len()
                invariant
                    i <= ps@.len(),
                    v@ == mid + parents_text(ps@.subrange(0, i as int)),
                decreases ps@.len() - i,
            {
                let ghost prior = v@;
                if i > 0 {
                    extend_str(&mut v, "  |  ");
                }
                extend(&mut v, short_of(ps[i].commit.as_str()).as_slice());
                extend_str(&mut v, " ");
                extend_str(&mut v, ps[i].name.as_str());
                let ghost sub = ps@.subrange(0, i + 1);
                assert(sub.drop_last() == ps@.subrange(0, i as int));
                assert(sub.last() == ps@[i as int]);
                assert(v@ =~= mid + parents_text(sub));
                i = i + 1;
            }
            assert(ps@.subrange(0, ps@.len() as int) == ps@);
        },
        None => {},
    }
    let s = string_of(v.as_slice());
    assert(s@ =~= spec_boundary_line(series.boundary));
    s
}

/// The files of the first entry that names the change.
pub open spec fn files_for(files: Seq<ChangeFiles>, key: Seq<char>) -> Option<Seq<FileEntry>>
    decreases files.len(),
{
    if files.len() == 0 {
        None
    } else if files[0].key@ == key {
        Some(files[0].files@)
    } else {
        files_for(files.drop_first(), key)
    }
}

/// The lines of the files, each indented and ended.
pub open spec fn file_lines(fs: Seq<FileEntry>) -> Seq<char>
    decreases fs.len(),
{
    if fs.len() == 0 {
        Seq::empty()
    } else {
        file_lines(fs.drop_last()) + "     "@ + spec_file_line(fs.last()) + "\n"@
    }
}

/// One change as the report lists it: its number, its short hash (or that
/// it is not committed) and its subject; its key, and a warning when an
/// amend would lose its comments; its files; a blank line.
pub open spec fn change_block(index: nat, c: ChangeSummary, files: Seq<ChangeFiles>) -> Seq<char> {
    title_line(index, c) + key_line(c) + match files_for(files, c.key@) {
        Some(fs) => file_lines(fs),
        None => Seq::empty(),
    } + "\n"@
}

/// The first line of a change: its number, its short hash or that it is not
/// committed, and its subject.
pub open spec fn title_line(index: nat, c: ChangeSummary) -> Seq<char> {
    pad_left(decimal(index + 1), 3) + ". "@ + (if c.worktree {
        "not committed"@
    } else {
        short(c.commit@)
    }) + "  "@ + c.subject@ + "\n"@
}

/// The second line of a change: its key, and a warning when an amend would
/// lose its comments.
pub open spec fn key_line(c: ChangeSummary) -> Seq<char> {
    "     "@ + c.key@ + "  "@ + (if c.change_id is Some || c.worktree {
        ""@
    } else {
        "(no Change-Id: an amend loses the comments)"@
    }) + "\n"@
}

/// The blocks of the changes, in order.
pub open spec fn change_blocks(cs: Seq<ChangeSummary>, files: Seq<ChangeFiles>) -> Seq<char>
    decreases cs.len(),
{
    if cs.len() == 0 {
        Seq::empty()
    } else {
        change_blocks(cs.drop_last(), files) + change_block((cs.len() - 1) as nat, cs.last(), files)
    }
}

/// The series the way the command line prints it: the repository, the
/// changes, and the boundary.
pub open spec fn spec_render(series: Series, files: Seq<ChangeFiles>) -> Seq<char> {
    "repository  "@ + series.repo.root@ + "\n"@ + match series.repo.remote {
        Some(r) => "remote      "@ + r@ + "\n"@,
        None => Seq::empty(),
    } + "id          "@ + series.repo.id@ + "\n"@ + "\n"@ + (if series.changes@.len() == 0 {
        "No change is loaded.\n"@
    } else {
        Seq::empty()
    }) + change_blocks(series.changes@, files) + spec_boundary_line(series.boundary) + "\n"@
}

/// Where the files of a change stand in the list.
fn find_files(files: &[ChangeFiles], key: &str) -> (out: Option<usize>)
    ensures
        match out {
            Some(i) => i < files@.len() && files_for(files@, key@) == Some(files@[i as int].files@),
            None => files_for(files@, key@) is None,
        },
{
    let mut i: usize = 0;
    assert(files@.subrange(0, files@.len() as int) == files@);
    while i < files.len()
        invariant
            i <= files@.len(),
            files_for(files@, key@) == files_for(files@.subrange(i as int, files@.len() as int), key@),
        decreases files@.len() - i,
    {
        let ghost rest = files@.subrange(i as int, files@.len() as int);
        assert(rest[0] == files@[i as int]);
        assert(rest.drop_first() == files@.subrange(i + 1, files@.len() as int));
        if same_str(files[i].key.as_str(), key) {
            return Some(i);
        }
        i = i + 1;
    }
    None
}

/// Write `n` right-aligned in three columns.
fn push_index(v: &mut Vec<char>, n: usize)
    ensures
        final(v)@ == old(v)@ + pad_left(decimal(n as nat), 3),
{
    let d = decimal_of(n);
    let ghost start = v@;
    let mut k = d.len();
    while k < 3
        invariant
            d@.len() <= k,
            d@.len() >= 3 ==> k == d@.len(),
            d@.len() < 3 ==> k <= 3,
            v@ == start + Seq::new((k - d@.len()) as nat, |j: int| ' '),
        decreases 3 - k,
    {
        v.push(' ');
        assert(v@ =~= start + Seq::new((k + 1 - d@.len()) as nat, |j: int| ' '));
        k = k + 1;
    }
    extend(v, d.as_slice());
    assert(Seq::new((k - d@.len()) as nat, |j: int| ' ') + d@ =~= pad_left(decimal(n as nat), 3)) by {
        if d@.len() >= 3 {
            assert(Seq::new((k - d@.len()) as nat, |j: int| ' ') + d@ =~= d@);
        }
    }
    assert(v@ =~= start + pad_left(decimal(n as nat), 3));
}

/// Write the lines of the files.
fn push_files(v: &mut Vec<char>, fs: &Vec<FileEntry>)
    ensures
        final(v)@ == old(v)@ + file_lines(fs@),
{
    let ghost mid = v@;
    let mut j: usize = 0;
    while j < fs.len()
        invariant
            j <= fs@.len(),
            v@ == mid + file_lines(fs@.subrange(0, j as int)),
        decreases fs@.len() - j,
    {
        extend_str(v, "     ");
        let line = file_line(&fs[j]);
        extend_str(v, line.as_str());
        extend_str(v, "\n");
        let ghost sub = fs@.subrange(0, j + 1);
        assert(sub.drop_last() == fs@.subrange(0, j as int));
        assert(v@ =~= mid + file_lines(sub));
        j = j + 1;
    }
    assert(fs@.subrange(0, fs@.len() as int) == fs@);
}

/// Write the first line of a change.
fn push_title(v: &mut Vec<char>, i: usize, c: &ChangeSummary)
    requires
        i < usize::MAX,
    ensures
        final(v)@ == old(v)@ + title_line(i as nat, *c),
{
    let ghost start = v@;
    push_index(v, i + 1);
    let ghost a = v@;
    extend_str(v, ". ");
    if c.worktree {
        extend_str(v, "not committed");
    } else {
        extend(v, short_of(c.commit.as_str()).as_slice());
    }
    extend_str(v, "  ");
    extend_str(v, c.subject.as_str());
    extend_str(v, "\n");
    assert(v@ =~= start + title_line(i as nat, *c));
}

/// Write the second line of a change.
fn push_key(v: &mut Vec<char>, c: &ChangeSummary)
    ensures
        final(v)@ == old(v)@ + key_line(*c),
{
    let ghost start = v@;
    extend_str(v, "     ");
    extend_str(v, c.key.as_str());
    extend_str(v, "  ");
    if c.change_id.is_some() || c.worktree {
        extend_str(v, "");
    } else {
        extend_str(v, "(no Change-Id: an amend loses the comments)");
    }
    extend_str(v, "\n");
    assert(v@ =~= start + key_line(*c));
}

/// Write the block of one change.
fn push_change(v: &mut Vec<char>, i: usize, c: &ChangeSummary, files: &[ChangeFiles])
    requires
        i < usize::MAX,
    ensures
        final(v)@ == old(v)@ + change_block(i as nat, *c, files@),
{
    let ghost start = v@;
    push_title(v, i, c);
    push_key(v, c);
    let ghost mid = v@;
    match find_files(files, c.key.as_str()) {
        Some(k) => push_files(v, &files[k].files),
        None => {},
    }
    let ghost after = v@;
    extend_str(v, "\n");
    assert(v@ =~= start + change_block(i as nat, *c, files@));
}

/// Render the series the way the command line prints it.
pub fn render(series: &Series, files: &[ChangeFiles]) -> (out: String)
    ensures
        out@ == spec_render(*series, files@),
{
    let mut v = chars_of("repository  ");
    extend_str(&mut v, series.repo.root.as_str());
    extend_str(&mut v, "\n");
    if let Some(remote) = &series.repo.remote {
        extend_str(&mut v, "remote      ");
        extend_str(&mut v, remote.as_str());
        extend_str(&mut v, "\n");
    }
    extend_str(&mut v, "id          ");
    extend_str(&mut v, series.repo.id.as_str());
    extend_str(&mut v, "\n");
    extend_str(&mut v, "\n");
    if series.changes.len() == 0 {
        extend_str(&mut v, "No change is loaded.\n");
    }
    let ghost top = v@;
    let cs = &series.changes;
    let mut i: usize = 0;
    while i < cs.len()
        invariant
            i <= cs@.len(),
            v@ == top + change_blocks(cs@.subrange(0, i as int), files@),
        decreases cs@.len() - i,
    {
        let c = &cs[i];
        push_change(&mut v, i, c, files);
        let ghost sub = cs@.subrange(0, i + 1);
        assert(sub.drop_last() == cs@.subrange(0, i as int));
        assert(sub.last() == *c);
        assert(v@ =~= top + change_blocks(sub, files@));
        i = i + 1;
    }
    assert(cs@.subrange(0, cs@.len() as int) == cs@);
    let b = boundary_line(series);
    extend_str(&mut v, b.as_str());
    extend_str(&mut v, "\n");
    let s = string_of(v.as_slice());
    assert(s@ =~= spec_render(*series, files@));
    s
}

} // verus!
