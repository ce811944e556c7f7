//! What identifies a repository.
//!
//! The comment store is keyed by this, so it must be the same for two clones
//! of the same project and for two worktrees of the same clone.

use vstd::prelude::*;
use vstd::utf8::encode_utf8;
use crate::comments::{digest, first_bytes, hex_encode, hex_of, sha256};
use crate::model::{opt_view, RepoInfo};
use crate::text::{
    chars_of, extend, extend_str, find, find_char, find_chars, find_char_in, lemma_find_char,
    lemma_find_occurs, lower_chars, lowercase, rfind_char, rfind_char_in, slice, string_of, trim,
    trim_chars, trim_end_char, trim_end_matching, trim_end_seq, trim_end_str, trim_start_char,
    trim_start_matching,
};

verus! {

/// The form two spellings of the same remote share: the host in lowercase,
/// a slash, and the path. The user, the port, the scheme, and a trailing
/// `.git` all vary between clones of one project, so none of them belongs
/// in the identity.
pub open spec fn spec_canonical(url: Seq<char>) -> Seq<char> {
    let after_scheme = match find(url, "://"@) {
        Some(i) => url.subrange(i + 3, url.len() as int),
        None => url,
    };
    let rest = trim(after_scheme);
    let rest = match rfind_char(rest, '@') {
        Some(i) => rest.subrange(i + 1, rest.len() as int),
        None => rest,
    };
    let (host, path) = match find_char(rest, '/') {
        Some(i) => (rest.subrange(0, i), rest.subrange(i + 1, rest.len() as int)),
        None => match find_char(rest, ':') {
            Some(i) => (rest.subrange(0, i), rest.subrange(i + 1, rest.len() as int)),
            None => (rest, Seq::empty()),
        },
    };
    let host = match find_char(host, ':') {
        Some(i) => host.subrange(0, i),
        None => host,
    };
    let path = trim_end_seq(trim_end_char(trim_start_char(path, '/'), '/'), ".git"@);
    lowercase(host) + "/"@ + path
}

/// The part of `v` after its `at`.
fn after(v: &Vec<char>, at: usize) -> (out: Vec<char>)
    requires
        at < v@.len(),
    ensures
        out@ == v@.subrange(at + 1, v@.len() as int),
{
    let n = v.len();
    slice(v.as_slice(), at + 1, n)
}

/// The form two spellings of the same remote share.
pub fn canonical(url: &str) -> (out: String)
    ensures
        out@ == spec_canonical(url@),
{
    let u = chars_of(url);
    let sep = chars_of("://");
    let n = u.len();
    let after_scheme = match find_chars(u.as_slice(), sep.as_slice()) {
        Some(i) => {
            proof {
                lemma_find_occurs(u@, sep@);
                reveal_strlit("://");
            }
            slice(u.as_slice(), i + 3, n)
        },
        None => u,
    };
    let rest = trim_chars(after_scheme.as_slice());
    let rest = match rfind_char_in(rest.as_slice(), '@') {
        Some(i) => after(&rest, i),
        None => rest,
    };
    let (host, path) = match find_char_in(rest.as_slice(), '/') {
        Some(i) => (slice(rest.as_slice(), 0, i), after(&rest, i)),
        None => match find_char_in(rest.as_slice(), ':') {
            Some(i) => (slice(rest.as_slice(), 0, i), after(&rest, i)),
            None => (rest, Vec::new()),
        },
    };
    let host = match find_char_in(host.as_slice(), ':') {
        Some(i) => slice(host.as_slice(), 0, i),
        None => host,
    };
    let path = trim_start_matching(path.as_slice(), '/');
    let path = trim_end_matching(path.as_slice(), '/');
    let path = trim_end_str(path.as_slice(), ".git");
    let mut out = lower_chars(host.as_slice());
    extend_str(&mut out, "/");
    extend(&mut out, path.as_slice());
    let s = string_of(out.as_slice());
    assert(s@ =~= spec_canonical(url@));
    s
}

/// The identity a seed gives: the first eight bytes of its SHA-256 digest,
/// in hexadecimal.
pub open spec fn spec_id_of(seed: Seq<char>) -> Seq<char> {
    hex_of(sha256(encode_utf8(seed)).subrange(0, 8))
}

/// The identity a seed gives.
pub fn id_of(seed: &str) -> (out: String)
    ensures
        out@ == spec_id_of(seed@),
{
    let d = digest(seed.as_bytes());
    let first = first_bytes(&d, 8);
    hex_encode(first.as_slice())
}

/// The identity of a repository: its canonical remote when it has one, else
/// the path of its top level, which is weaker: a second clone is a second
/// identity.
pub fn info(root: String, remote_url: Option<String>, canonical_root: String) -> (out: RepoInfo)
    ensures
        out.root == root,
        opt_view(out.remote) == match remote_url {
            Some(u) => Some(spec_canonical(u@)),
            None => None,
        },
        out.id@ == match remote_url {
            Some(u) => spec_id_of(spec_canonical(u@)),
            None => spec_id_of(canonical_root@),
        },
{
    let remote = match &remote_url {
        Some(u) => Some(canonical(u.as_str())),
        None => None,
    };
    let id = match &remote {
        Some(c) => id_of(c.as_str()),
        None => id_of(canonical_root.as_str()),
    };
    RepoInfo { root, remote, id }
}

} // verus!
