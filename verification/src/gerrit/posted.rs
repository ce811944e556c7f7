//! The remarks already posted on Gerrit, turned into something placeable.

use vstd::prelude::*;
use crate::comments::NewComment;
use crate::gerrit::InlineComment;
use crate::store::model::{Scope, Side};
use crate::text::{chars_of, copy_string, decimal, decimal_of, extend, extend_str, same_str, string_of};

verus! {

/// The line a remark sits on, if it sits on one.
pub open spec fn spec_line_of(file: Seq<char>, line: Option<usize>) -> Option<usize> {
    if file == crate::commitmsg::PATH@ {
        None
    } else {
        match line {
            Some(l) => if l > 0 {
                Some(l)
            } else {
                None
            },
            None => None,
        }
    }
}

/// The line the remark sits on, if it sits on one.
///
/// Gerrit writes line 0 for a remark about the whole file. And the message it
/// shows as `/COMMIT_MSG` carries a header of its own that qreview drops, so
/// the numbers of the two do not match: such a remark is read as a remark
/// about the message, not about a line of it.
pub fn line_of(posted: &InlineComment) -> (out: Option<usize>)
    ensures
        out == spec_line_of(posted.file@, posted.line),
{
    if crate::commitmsg::is(posted.file.as_str()) {
        return None;
    }
    match posted.line {
        Some(l) => if l > 0 {
            Some(l)
        } else {
            None
        },
        None => None,
    }
}

/// The id of the `nth` remark of a patch set. The answer carries none, so
/// it is made from the place, and it is the same on every query as long as
/// the server says the same.
pub open spec fn spec_posted_id(patch_set: usize, nth: usize) -> Seq<char> {
    "g"@ + decimal(patch_set as nat) + "-"@ + decimal(nth as nat)
}

/// The id of the `nth` remark of a patch set.
pub fn posted_id(patch_set: usize, nth: usize) -> (out: String)
    ensures
        out@ == spec_posted_id(patch_set, nth),
{
    let mut m = chars_of("g");
    extend(&mut m, decimal_of(patch_set).as_slice());
    extend_str(&mut m, "-");
    extend(&mut m, decimal_of(nth).as_slice());
    string_of(m.as_slice())
}

/// A posted remark, asked to be anchored the way the reader's own are: on
/// its line of the new side, or on the whole file.
pub fn request_of(posted: &InlineComment) -> (out: NewComment)
    ensures
        out.scope == (if spec_line_of(posted.file@, posted.line) is Some { Scope::Line } else { Scope::File }),
        out.file matches Some(f) && f@ == posted.file@,
        out.side == Some(Side::New),
        out.start_line == spec_line_of(posted.file@, posted.line),
        out.end_line == spec_line_of(posted.file@, posted.line),
        out.start_char is None,
        out.end_char is None,
        out.body@ == posted.message@,
{
    let line = line_of(posted);
    let scope = match line {
        Some(_) => Scope::Line,
        None => Scope::File,
    };
    NewComment {
        scope,
        file: Some(copy_string(&posted.file)),
        side: Some(Side::New),
        start_line: line,
        end_line: line,
        start_char: None,
        end_char: None,
        body: copy_string(&posted.message),
    }
}

/// The column a remark stands in: the right one when it was posted on the
/// version there, the left one when on the version it is read against, and
/// none otherwise, since a remark of another version speaks of code that is
/// not on the screen.
pub open spec fn spec_column(commit: Seq<char>, rev: Seq<char>, left: Option<Seq<char>>) -> Option<Side> {
    if commit == rev {
        Some(Side::New)
    } else if left == Some(commit) {
        Some(Side::Old)
    } else {
        None
    }
}

/// The column a remark posted on `commit` stands in.
pub fn column_of(commit: &str, rev: &str, left: Option<&str>) -> (out: Option<Side>)
    ensures
        out == spec_column(commit@, rev@, match left {
            Some(l) => Some(l@),
            None => None,
        }),
{
    if same_str(commit, rev) {
        Some(Side::New)
    } else {
        match left {
            Some(l) => if same_str(l, commit) {
                Some(Side::Old)
            } else {
                None
            },
            None => None,
        }
    }
}

} // verus!
