//! Where the Gerrit server is, read from the remote of the repository.

use vstd::prelude::*;
use crate::text::{
    after, chars_of, find_char, find_char_in, lemma_find_char, parse_usize, parse_usize_chars,
    rfind_char, rfind_char_in, slice, starts_with, string_of, strip_prefix, trim, trim_chars,
    trim_end_char, trim_end_matching, trim_end_seq, trim_end_str,
};

verus! {

/// The default ssh port of a Gerrit server.
pub const PORT: u16 = 29418;

/// Everything the ssh query needs.
#[derive(Clone, Debug, PartialEq, Eq)]
pub struct Coordinates {
    pub host: String,
    pub port: u16,
    pub project: String,
    pub branch: Option<String>,
}

/// The coordinates as the contracts read them.
pub struct CoordinatesView {
    pub host: Seq<char>,
    pub port: u16,
    pub project: Seq<char>,
    pub branch: Option<Seq<char>>,
}

impl View for Coordinates {
    type V = CoordinatesView;

    open spec fn view(&self) -> CoordinatesView {
        CoordinatesView {
            host: self.host@,
            port: self.port,
            project: self.project@,
            branch: crate::model::opt_view(self.branch),
        }
    }
}

/// A port number, or the Gerrit default when it does not read as one.
pub open spec fn spec_port(p: Seq<char>) -> u16 {
    match parse_usize(p) {
        Some(v) => if v <= 65535 {
            v as u16
        } else {
            PORT
        },
        None => PORT,
    }
}

/// The host, the port and the project of an `ssh://` remote.
pub open spec fn spec_from_remote(url: Seq<char>) -> Option<CoordinatesView> {
    let t = trim(url);
    if !starts_with(t, "ssh://"@) {
        None
    } else {
        let rest0 = after(t, "ssh://"@);
        let rest = match rfind_char(rest0, '@') {
            Some(i) => rest0.subrange(i + 1, rest0.len() as int),
            None => rest0,
        };
        match find_char(rest, '/') {
            None => None,
            Some(slash) => {
                let authority = rest.subrange(0, slash);
                let path = rest.subrange(slash + 1, rest.len() as int);
                let (host, port) = match rfind_char(authority, ':') {
                    Some(c) => (
                        authority.subrange(0, c),
                        spec_port(authority.subrange(c + 1, authority.len() as int)),
                    ),
                    None => (authority, PORT),
                };
                let project = trim_end_seq(trim_end_char(path, '/'), ".git"@);
                if host.len() == 0 || project.len() == 0 {
                    None
                } else {
                    Some(CoordinatesView { host, port, project, branch: None })
                }
            },
        }
    }
}

/// Read the host, the port and the project from a remote URL.
///
/// Only an `ssh://` remote can be a Gerrit: the ssh API is the only one this
/// tool speaks, and an https remote says nothing about where it lives.
pub fn from_remote(url: &str) -> (out: Option<Coordinates>)
    ensures
        match out {
            Some(c) => spec_from_remote(url@) == Some(c@),
            None => spec_from_remote(url@) is None,
        },
{
    let t = trim_chars(chars_of(url).as_slice());
    let rest0 = match strip_prefix(t.as_slice(), "ssh://") {
        Some(r) => r,
        None => return None,
    };
    let n0 = rest0.len();
    let rest = match rfind_char_in(rest0.as_slice(), '@') {
        Some(i) => slice(rest0.as_slice(), i + 1, n0),
        None => rest0,
    };
    let slash = match find_char_in(rest.as_slice(), '/') {
        Some(i) => i,
        None => return None,
    };
    let authority = slice(rest.as_slice(), 0, slash);
    let path = slice(rest.as_slice(), slash + 1, rest.len());
    let (host, port) = match rfind_char_in(authority.as_slice(), ':') {
        Some(c) => {
            let p = slice(authority.as_slice(), c + 1, authority.len());
            let port = match parse_usize_chars(p.as_slice()) {
                Some(v) => if v <= 65535 {
                    v as u16
                } else {
                    PORT
                },
                None => PORT,
            };
            (slice(authority.as_slice(), 0, c), port)
        },
        None => (authority, PORT),
    };
    let trimmed = trim_end_matching(path.as_slice(), '/');
    let project = trim_end_str(trimmed.as_slice(), ".git");
    if host.len() == 0 || project.len() == 0 {
        return None;
    }
    Some(
        Coordinates {
            host: string_of(host.as_slice()),
            port,
            project: string_of(project.as_slice()),
            branch: None,
        },
    )
}

} // verus!
