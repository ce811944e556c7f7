//! What `gerrit query` answers, once read.
//!
//! The JSON is read by the application, which owns the serde copies of these
//! types; the library holds the values and what is computed from them.

use vstd::prelude::*;
use crate::text::{chars_of, string_of, trim, trim_chars};

verus! {

/// One change as the server knows it.
#[derive(Clone, Debug, PartialEq, Eq)]
pub struct Change {
    pub project: String,
    pub branch: String,
    pub id: String,
    pub number: u64,
    pub subject: String,
    pub url: String,
    pub status: String,
    pub patch_sets: Vec<PatchSet>,
}

/// Whoever wrote a comment on the server.
///
/// Every field may be empty: a robot account often has no name, and a server
/// hides the address of a user who asked it to.
#[derive(Clone, Debug, Default, PartialEq, Eq)]
pub struct Person {
    pub name: String,
    pub email: String,
    pub username: String,
}

/// The label of a person: the name, or the next best thing the server gave.
pub open spec fn spec_label(name: Seq<char>, username: Seq<char>, email: Seq<char>) -> Seq<char> {
    if trim(name).len() > 0 {
        trim(name)
    } else if trim(username).len() > 0 {
        trim(username)
    } else if trim(email).len() > 0 {
        trim(email)
    } else {
        "someone"@
    }
}

impl Person {
    /// What to show. The name, or the next best thing the server gave.
    pub fn label(&self) -> (out: String)
        ensures
            out@ == spec_label(self.name@, self.username@, self.email@),
    {
        let name = trim_chars(chars_of(self.name.as_str()).as_slice());
        if name.len() > 0 {
            return string_of(name.as_slice());
        }
        let username = trim_chars(chars_of(self.username.as_str()).as_slice());
        if username.len() > 0 {
            return string_of(username.as_slice());
        }
        let email = trim_chars(chars_of(self.email.as_str()).as_slice());
        if email.len() > 0 {
            return string_of(email.as_slice());
        }
        "someone".to_owned()
    }
}

/// One remark posted on a line of a patch set.
#[derive(Clone, Debug, PartialEq, Eq)]
pub struct InlineComment {
    pub file: String,
    /// Absent on a remark about the whole file.
    pub line: Option<usize>,
    pub reviewer: Person,
    pub message: String,
}

/// One version of a change on the server.
#[derive(Clone, Debug, PartialEq, Eq)]
pub struct PatchSet {
    pub number: usize,
    /// The commit of this version.
    pub revision: String,
    /// `refs/changes/NN/CCCC/P`, what a fetch asks for.
    pub git_ref: String,
    pub created_on: i64,
    pub kind: String,
    /// The remarks posted on this version.
    pub comments: Vec<InlineComment>,
}

} // verus!
