//! What a review holds on disk.

use vstd::prelude::*;
use crate::git::commit::strings_view;
use crate::model::opt_view;
use crate::text::{copy_opt, copy_string};

verus! {

/// The format of a change file. A change owes a migration, or a refusal with
/// a clear message. Never a silent read of an older shape.
///
/// 2 added the character range of an anchor. A file of format 1 reads as one
/// whose comments cover whole lines, and the store stamps it 2 so the next
/// write says what it is.
///
/// 3 added the commit a comment was written against, which is what lets a
/// second round find the version that was reviewed. A comment of format 2
/// names none, and takes no part in that.
pub const VERSION: u32 = 3;

/// Everything a review of one change holds.
#[derive(Clone, Debug, PartialEq, Eq)]
pub struct ChangeFile {
    pub version: u32,
    /// The Change-Id, or `sha-<hash>` when the commit carries none.
    pub key: String,
    pub subject: String,
    /// The reader marked this change read. It says nothing about the
    /// comments: a change can be read and still carry remarks.
    pub reviewed: bool,
    pub comments: Vec<Comment>,
}

impl ChangeFile {
    /// The review of a change nobody has written on yet.
    pub fn new(key: &str, subject: &str) -> (f: Self)
        ensures
            f.version == VERSION,
            f.key@ == key@,
            f.subject@ == subject@,
            !f.reviewed,
            f.comments@.len() == 0,
    {
        ChangeFile {
            version: VERSION,
            key: key.to_owned(),
            subject: subject.to_owned(),
            reviewed: false,
            comments: Vec::new(),
        }
    }
}

/// What a comment is attached to.
#[derive(Clone, Copy, Debug, PartialEq, Eq, Structural)]
pub enum Scope {
    Line,
    Range,
    File,
    Change,
}

/// The side of a diff a comment sits on.
#[derive(Clone, Copy, Debug, PartialEq, Eq, Structural)]
pub enum Side {
    Old,
    New,
}

/// One remark of a review.
#[derive(Clone, Debug, PartialEq, Eq)]
pub struct Comment {
    pub id: String,
    /// The patch set the comment was written against.
    pub patch_set: usize,
    /// The commit it was written against.
    ///
    /// An amend gives the change a new sha, and this is how a later run
    /// finds the version that was reviewed without being told. Empty on a
    /// comment written by a qreview older than format 3.
    pub commit: String,
    pub created_at: String,
    pub updated_at: String,
    pub scope: Scope,
    pub body: String,
    pub anchor: Option<Anchor>,
}

/// Where a comment sits, and enough context to find that place again in
/// another patch set.
#[derive(Clone, Debug, PartialEq, Eq)]
pub struct Anchor {
    pub file: String,
    pub side: Side,
    /// Absent on a comment about the file as a whole.
    pub start_line: Option<usize>,
    pub end_line: Option<usize>,
    /// The first character of the range on `start_line`, and the one after
    /// the last on `end_line`, in UTF-16 units. Absent when the comment
    /// covers whole lines.
    pub start_char: Option<usize>,
    pub end_char: Option<usize>,
    /// The blob the lines were read from.
    pub blob: Option<String>,
    /// A hash of the anchored line, trimmed of trailing space.
    pub line_hash: Option<String>,
    /// The lines around the anchor, for finding it again.
    pub context: Vec<String>,
}

/// An anchor, with its text as characters.
pub struct AnchorView {
    pub file: Seq<char>,
    pub side: Side,
    pub start_line: Option<usize>,
    pub end_line: Option<usize>,
    pub start_char: Option<usize>,
    pub end_char: Option<usize>,
    pub blob: Option<Seq<char>>,
    pub line_hash: Option<Seq<char>>,
    pub context: Seq<Seq<char>>,
}

impl View for Anchor {
    type V = AnchorView;

    open spec fn view(&self) -> AnchorView {
        AnchorView {
            file: self.file@,
            side: self.side,
            start_line: self.start_line,
            end_line: self.end_line,
            start_char: self.start_char,
            end_char: self.end_char,
            blob: opt_view(self.blob),
            line_hash: opt_view(self.line_hash),
            context: strings_view(self.context@),
        }
    }
}

/// A comment, with its text as characters.
pub struct CommentView {
    pub id: Seq<char>,
    pub patch_set: usize,
    pub commit: Seq<char>,
    pub created_at: Seq<char>,
    pub updated_at: Seq<char>,
    pub scope: Scope,
    pub body: Seq<char>,
    pub anchor: Option<AnchorView>,
}

/// The view of an optional anchor.
pub open spec fn anchor_view(a: Option<Anchor>) -> Option<AnchorView> {
    match a {
        Some(a) => Some(a@),
        None => None,
    }
}

impl View for Comment {
    type V = CommentView;

    open spec fn view(&self) -> CommentView {
        CommentView {
            id: self.id@,
            patch_set: self.patch_set,
            commit: self.commit@,
            created_at: self.created_at@,
            updated_at: self.updated_at@,
            scope: self.scope,
            body: self.body@,
            anchor: anchor_view(self.anchor),
        }
    }
}

/// The views of a sequence of comments.
pub open spec fn comments_view(v: Seq<Comment>) -> Seq<CommentView> {
    v.map_values(|c: Comment| c@)
}

/// A copy of a run of strings.
pub fn copy_strings(v: &Vec<String>) -> (out: Vec<String>)
    ensures
        strings_view(out@) == strings_view(v@),
{
    let mut out: Vec<String> = Vec::new();
    let mut i: usize = 0;
    while i < v.len()
        invariant
            i <= v@.len(),
            strings_view(out@) == strings_view(v@.subrange(0, i as int)),
        decreases v@.len() - i,
    {
        let ghost before = strings_view(out@);
        out.push(copy_string(&v[i]));
        assert(strings_view(out@) =~= before.push(v@[i as int]@));
        assert(strings_view(v@.subrange(0, i + 1)) =~= strings_view(v@.subrange(0, i as int)).push(v@[i as int]@));
        i = i + 1;
    }
    assert(v@.subrange(0, v@.len() as int) == v@);
    out
}

/// A copy of an anchor.
pub fn copy_anchor(a: &Anchor) -> (out: Anchor)
    ensures
        out@ == a@,
{
    Anchor {
        file: copy_string(&a.file),
        side: a.side,
        start_line: a.start_line,
        end_line: a.end_line,
        start_char: a.start_char,
        end_char: a.end_char,
        blob: copy_opt(&a.blob),
        line_hash: copy_opt(&a.line_hash),
        context: copy_strings(&a.context),
    }
}

/// A copy of a comment.
pub fn copy_comment(c: &Comment) -> (out: Comment)
    ensures
        out@ == c@,
{
    Comment {
        id: copy_string(&c.id),
        patch_set: c.patch_set,
        commit: copy_string(&c.commit),
        created_at: copy_string(&c.created_at),
        updated_at: copy_string(&c.updated_at),
        scope: c.scope,
        body: copy_string(&c.body),
        anchor: match &c.anchor {
            Some(a) => Some(copy_anchor(a)),
            None => None,
        },
    }
}

} // verus!
