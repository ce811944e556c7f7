//! The types that cross the wire to the interface.
//!
//! Each type with text in it has a view: the same value with its strings
//! read as sequences of characters, which is what the contracts speak of.

use vstd::prelude::*;

verus! {

/// Where the repository is, and what identifies it.
#[derive(Clone, Debug, PartialEq, Eq)]
pub struct RepoInfo {
    /// The top level directory of the repository.
    pub root: String,
    /// The canonical remote URL, when there is a remote.
    pub remote: Option<String>,
    /// The identity the comment store is keyed by.
    pub id: String,
}

/// The series being reviewed, newest change first.
#[derive(Clone, Debug, PartialEq, Eq)]
pub struct Series {
    pub repo: RepoInfo,
    /// The newest change of the series.
    pub head: String,
    /// The oldest change loaded so far.
    pub oldest: String,
    pub changes: Vec<ChangeSummary>,
    /// Why the walk stopped.
    pub boundary: Boundary,
}

/// One change of the series, as the series pane lists it.
#[derive(Clone, Debug, PartialEq, Eq)]
pub struct ChangeSummary {
    /// The Change-Id, or `sha-<hash>` when the commit carries none.
    pub key: String,
    pub change_id: Option<String>,
    pub subject: String,
    pub author: String,
    pub commit: String,
    pub patch_set_count: usize,
    pub comment_count: usize,
    /// The reader marked this change read.
    pub reviewed: bool,
    pub is_merge: bool,
    /// The work that is not committed yet, not a commit of the history.
    pub worktree: bool,
}

/// Why the walk of the series stopped.
#[derive(Clone, Copy, Debug, PartialEq, Eq, Structural)]
pub enum BoundaryKind {
    /// Another line of history starts here. Never crossed in silence.
    Merge,
    /// A tag points at the commit. A release is a history boundary.
    Tag,
    /// The base that the rules resolved.
    Base,
    /// The guess stopped, and `reason` says on which signal.
    Guess,
    /// The batch filled up. Nothing is wrong; load more.
    Batch,
    /// The history has no parent left.
    Root,
}

/// Where the walk stopped, and what is under it.
#[derive(Clone, Debug, PartialEq, Eq)]
pub struct Boundary {
    pub kind: BoundaryKind,
    /// The commit under the boundary. It is not loaded yet.
    pub commit: Option<String>,
    /// The subject of that commit: the reader decides whether to go further
    /// from what is written there.
    pub subject: Option<String>,
    /// How many commits are left to the base, when a known base says so.
    pub remaining: Option<usize>,
    /// Shown on the card, for example "on origin/rel-3.0".
    pub reason: String,
    /// True when a guess produced this stop.
    pub guessed: bool,
    pub merge: Option<MergeInfo>,
}

/// The merge a walk stopped at.
#[derive(Clone, Debug, PartialEq, Eq)]
pub struct MergeInfo {
    pub subject: String,
    pub parents: Vec<ParentInfo>,
}

/// One parent of a merge.
#[derive(Clone, Debug, PartialEq, Eq)]
pub struct ParentInfo {
    pub commit: String,
    /// What the commit is called, for example `side` or `origin/rel-3.0`.
    pub name: String,
    /// True when a remote-tracking ref reaches it.
    pub remote: bool,
}

/// What happened to a file in a change.
#[derive(Clone, Copy, Debug, PartialEq, Eq, Structural)]
pub enum FileStatus {
    Added,
    Modified,
    Deleted,
    Renamed,
    Copied,
}

/// One file of a change, without its content.
#[derive(Clone, Debug, PartialEq, Eq)]
pub struct FileEntry {
    pub path: String,
    /// Set on a rename or a copy.
    pub old_path: Option<String>,
    pub status: FileStatus,
    /// The language name the highlighter knows.
    pub language: String,
    pub binary: bool,
    pub added: usize,
    pub removed: usize,
}

/// One file of a change, with its content.
#[derive(Clone, Debug, PartialEq, Eq)]
pub struct FileDiff {
    pub file: FileEntry,
    pub hunks: Vec<Hunk>,
    /// How many lines the new side has, when it is known.
    pub line_count: Option<usize>,
}

/// One hunk of a diff.
#[derive(Clone, Debug, PartialEq, Eq)]
pub struct Hunk {
    pub old_start: usize,
    pub old_lines: usize,
    pub new_start: usize,
    pub new_lines: usize,
    /// What git prints after the second `@@`, usually the enclosing function.
    pub header: String,
    pub rows: Vec<Row>,
}

/// What a row of a hunk is.
#[derive(Clone, Copy, Debug, PartialEq, Eq, Structural)]
pub enum RowKind {
    Context,
    Add,
    Remove,
}

/// One line of a hunk.
#[derive(Clone, Debug, PartialEq, Eq)]
pub struct Row {
    pub kind: RowKind,
    pub old_line: Option<usize>,
    pub new_line: Option<usize>,
    pub text: String,
    /// The file has no newline after this line.
    pub no_newline: bool,
    /// Syntax classes. Empty until the file is highlighted.
    pub tokens: Vec<Span>,
    /// Intra-line marks. Absent on a context row.
    pub words: Vec<WordSpan>,
}

/// A range of `Row::text` that carries a syntax class.
#[derive(Clone, Debug, PartialEq, Eq)]
pub struct Span {
    pub start: usize,
    pub end: usize,
    /// A CSS class, for example `keyword control`.
    pub cls: String,
}

/// A range of `Row::text` that changed inside the line.
#[derive(Clone, Copy, Debug, PartialEq, Eq, Structural)]
pub struct WordSpan {
    pub start: usize,
    pub end: usize,
}

// ---------------------------------------------------------------------------
// Views
// ---------------------------------------------------------------------------

/// A span, with its class as characters.
pub struct SpanView {
    pub start: usize,
    pub end: usize,
    pub cls: Seq<char>,
}

impl View for Span {
    type V = SpanView;

    open spec fn view(&self) -> SpanView {
        SpanView { start: self.start, end: self.end, cls: self.cls@ }
    }
}

/// A row, with its text as characters.
pub struct RowView {
    pub kind: RowKind,
    pub old_line: Option<usize>,
    pub new_line: Option<usize>,
    pub text: Seq<char>,
    pub no_newline: bool,
    pub tokens: Seq<SpanView>,
    pub words: Seq<WordSpan>,
}

impl View for Row {
    type V = RowView;

    open spec fn view(&self) -> RowView {
        RowView {
            kind: self.kind,
            old_line: self.old_line,
            new_line: self.new_line,
            text: self.text@,
            no_newline: self.no_newline,
            tokens: self.tokens@.map_values(|s: Span| s@),
            words: self.words@,
        }
    }
}

/// The views of a sequence of rows.
pub open spec fn rows_view(rows: Seq<Row>) -> Seq<RowView> {
    rows.map_values(|r: Row| r@)
}

/// A hunk, with its text as characters.
pub struct HunkView {
    pub old_start: usize,
    pub old_lines: usize,
    pub new_start: usize,
    pub new_lines: usize,
    pub header: Seq<char>,
    pub rows: Seq<RowView>,
}

impl View for Hunk {
    type V = HunkView;

    open spec fn view(&self) -> HunkView {
        HunkView {
            old_start: self.old_start,
            old_lines: self.old_lines,
            new_start: self.new_start,
            new_lines: self.new_lines,
            header: self.header@,
            rows: rows_view(self.rows@),
        }
    }
}

/// The views of a sequence of hunks.
pub open spec fn hunks_view(hunks: Seq<Hunk>) -> Seq<HunkView> {
    hunks.map_values(|h: Hunk| h@)
}

/// The view of an optional string.
pub open spec fn opt_view(s: Option<String>) -> Option<Seq<char>> {
    match s {
        Some(s) => Some(s@),
        None => None,
    }
}

/// A file entry, with its text as characters.
pub struct FileEntryView {
    pub path: Seq<char>,
    pub old_path: Option<Seq<char>>,
    pub status: FileStatus,
    pub language: Seq<char>,
    pub binary: bool,
    pub added: usize,
    pub removed: usize,
}

impl View for FileEntry {
    type V = FileEntryView;

    open spec fn view(&self) -> FileEntryView {
        FileEntryView {
            path: self.path@,
            old_path: opt_view(self.old_path),
            status: self.status,
            language: self.language@,
            binary: self.binary,
            added: self.added,
            removed: self.removed,
        }
    }
}

/// A file diff, with its text as characters.
pub struct FileDiffView {
    pub file: FileEntryView,
    pub hunks: Seq<HunkView>,
    pub line_count: Option<usize>,
}

impl View for FileDiff {
    type V = FileDiffView;

    open spec fn view(&self) -> FileDiffView {
        FileDiffView { file: self.file@, hunks: hunks_view(self.hunks@), line_count: self.line_count }
    }
}

/// The views of a sequence of file diffs.
pub open spec fn diffs_view(files: Seq<FileDiff>) -> Seq<FileDiffView> {
    files.map_values(|f: FileDiff| f@)
}

/// A change of the series, with its text as characters.
pub struct ChangeSummaryView {
    pub key: Seq<char>,
    pub change_id: Option<Seq<char>>,
    pub subject: Seq<char>,
    pub author: Seq<char>,
    pub commit: Seq<char>,
    pub patch_set_count: usize,
    pub comment_count: usize,
    pub reviewed: bool,
    pub is_merge: bool,
    pub worktree: bool,
}

impl View for ChangeSummary {
    type V = ChangeSummaryView;

    open spec fn view(&self) -> ChangeSummaryView {
        ChangeSummaryView {
            key: self.key@,
            change_id: opt_view(self.change_id),
            subject: self.subject@,
            author: self.author@,
            commit: self.commit@,
            patch_set_count: self.patch_set_count,
            comment_count: self.comment_count,
            reviewed: self.reviewed,
            is_merge: self.is_merge,
            worktree: self.worktree,
        }
    }
}

/// The views of a sequence of changes.
pub open spec fn summaries_view(v: Seq<ChangeSummary>) -> Seq<ChangeSummaryView> {
    v.map_values(|c: ChangeSummary| c@)
}

/// The comments of one change, in the order a review reads them.
#[derive(Clone, Debug, PartialEq, Eq)]
pub struct ChangeComments {
    pub key: String,
    pub subject: String,
    pub commit: String,
    pub comments: Vec<crate::store::model::Comment>,
}

/// A copy of a change, field for field.
pub fn copy_summary(c: &ChangeSummary) -> (out: ChangeSummary)
    ensures
        out@ == c@,
{
    ChangeSummary {
        key: c.key.clone(),
        change_id: match &c.change_id {
            Some(id) => Some(id.clone()),
            None => None,
        },
        subject: c.subject.clone(),
        author: c.author.clone(),
        commit: c.commit.clone(),
        patch_set_count: c.patch_set_count,
        comment_count: c.comment_count,
        reviewed: c.reviewed,
        is_merge: c.is_merge,
        worktree: c.worktree,
    }
}

} // verus!
