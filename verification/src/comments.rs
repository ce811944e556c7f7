//! Writing and reading review comments.
//!
//! A comment is keyed by the change, not by the commit, so an amend keeps it.
//! Where it sits is recorded with enough of the line around it to find that
//! place again in another patch set. Reading and writing the store is the
//! caller's; what a review becomes is decided here.

use vstd::prelude::*;
use vstd::utf8::encode_utf8;
use sha2::Digest;
use crate::git::commit::strings_view;
use crate::model::opt_view;
use crate::store::model::{
    comments_view, copy_comment, Anchor, AnchorView, ChangeFile, Comment, CommentView, Scope, Side,
};
use crate::text::{
    chars_of, copy_string, extend_str, lines, lines_of, same_str, string_of, trim, trim_chars,
    trim_end, trim_end_chars,
};

verus! {

/// How many lines above and below the anchor are kept.
pub const CONTEXT: usize = 3;

/// What the interface sends to write a comment.
#[derive(Clone, Debug)]
pub struct NewComment {
    pub scope: Scope,
    pub file: Option<String>,
    pub side: Option<Side>,
    pub start_line: Option<usize>,
    pub end_line: Option<usize>,
    /// The character range inside the two lines, in UTF-16 units. Absent
    /// when the comment covers whole lines.
    pub start_char: Option<usize>,
    pub end_char: Option<usize>,
    pub body: String,
}

/// What the interface sends to change one.
#[derive(Clone, Debug, Default)]
pub struct EditComment {
    pub body: Option<String>,
}

/// What the change owes the series pane.
#[derive(Clone, Copy, Debug, Default, PartialEq, Eq, Structural)]
pub struct Counts {
    pub total: usize,
    pub reviewed: bool,
}

/// What SHA-256 gives for a run of bytes.
pub uninterp spec fn sha256(data: Seq<u8>) -> Seq<u8>;

/// The SHA-256 digest of the bytes.
///
/// Calls `sha2::Sha256::digest`. The contract names the digest `sha256` and
/// states its length, 32 bytes, which its output type fixes.
#[verifier::external_body]
pub(crate) fn digest(data: &[u8]) -> (out: Vec<u8>)
    ensures
        out@ == sha256(data@),
        out@.len() == 32,
{
    sha2::Sha256::digest(data).to_vec()
}

/// The lowercase hexadecimal digit of a number below sixteen.
pub open spec fn hex_digit(n: u8) -> char {
    if n < 10 {
        (48 + n) as char
    } else {
        (87 + n) as char
    }
}

/// Two lowercase hexadecimal digits for each byte, in order.
pub open spec fn hex_of(b: Seq<u8>) -> Seq<char>
    decreases b.len(),
{
    if b.len() == 0 {
        Seq::empty()
    } else {
        hex_of(b.drop_last()) + seq![hex_digit(b.last() / 16), hex_digit(b.last() % 16)]
    }
}

/// The bytes in lowercase hexadecimal.
///
/// Calls `hex::encode`, which writes each byte as two digits of
/// `0123456789abcdef`, high half first.
#[verifier::external_body]
pub(crate) fn hex_encode(data: &[u8]) -> (out: String)
    ensures
        out@ == hex_of(data@),
{
    hex::encode(data)
}

/// `n` random bytes from the system, or nothing when it has no randomness.
///
/// Calls `getrandom::fill`. Nothing is said of the bytes but how many.
#[verifier::external_body]
pub(crate) fn random_bytes(n: usize) -> (out: Option<Vec<u8>>)
    ensures
        out matches Some(b) ==> b@.len() == n,
{
    let mut bytes = vec![0u8; n];
    match getrandom::fill(&mut bytes) {
        Ok(()) => Some(bytes),
        Err(_) => None,
    }
}

/// The moment, as RFC 3339 in UTC, when the `time` crate can write it.
///
/// Calls `time::OffsetDateTime::now_utc` and formats it. Nothing is said of
/// the clock.
#[verifier::external_body]
pub(crate) fn now() -> (out: Option<String>) {
    time::OffsetDateTime::now_utc().format(&time::format_description::well_known::Rfc3339).ok()
}

/// The text a comment is stamped with: the moment, or the epoch when it
/// cannot be written.
pub fn stamp_of(moment: Option<String>) -> (out: String)
    ensures
        match moment {
            Some(t) => out@ == t@,
            None => out@ == "1970-01-01T00:00:00Z"@,
        },
{
    match moment {
        Some(t) => t,
        None => "1970-01-01T00:00:00Z".to_owned(),
    }
}

/// The hash of a line, trailing space removed: `sha256:` and the first
/// eight bytes of the digest in hexadecimal.
pub open spec fn spec_hash_line(line: Seq<char>) -> Seq<char> {
    "sha256:"@ + hex_of(sha256(encode_utf8(trim_end(line))).subrange(0, 8))
}

/// The first `n` bytes.
pub(crate) fn first_bytes(v: &Vec<u8>, n: usize) -> (out: Vec<u8>)
    requires
        n <= v@.len(),
    ensures
        out@ == v@.subrange(0, n as int),
{
    let mut out: Vec<u8> = Vec::new();
    let mut i: usize = 0;
    while i < n
        invariant
            i <= n,
            n <= v@.len(),
            out@ == v@.subrange(0, i as int),
        decreases n - i,
    {
        out.push(v[i]);
        assert(out@ =~= v@.subrange(0, i + 1));
        i = i + 1;
    }
    out
}

/// The hash of a line, trailing space removed.
///
/// Trailing space is what an editor changes without anybody meaning to, and
/// a comment must not come loose over it.
pub fn hash_line(line: &str) -> (out: String)
    ensures
        out@ == spec_hash_line(line@),
{
    let t = string_of(trim_end_chars(chars_of(line).as_slice()).as_slice());
    let bytes = t.as_str().as_bytes();
    let d = digest(bytes);
    let first = first_bytes(&d, 8);
    let h = hex_encode(first.as_slice());
    let mut out = chars_of("sha256:");
    extend_str(&mut out, h.as_str());
    string_of(out.as_slice())
}

/// A new comment id: `c-` and eight random bytes in hexadecimal. Nothing
/// when the system has no randomness.
pub fn new_id() -> (out: Option<String>)
    ensures
        out matches Some(id) ==> (exists|b: Seq<u8>| b.len() == 8 && id@ == "c-"@ + hex_of(b)),
{
    match random_bytes(8) {
        Some(b) => Some(id_of(b.as_slice())),
        None => None,
    }
}

/// The id made of some bytes: `c-` and the bytes in lowercase hexadecimal.
pub fn id_of(bytes: &[u8]) -> (out: String)
    ensures
        out@ == "c-"@ + hex_of(bytes@),
{
    let h = hex_encode(bytes);
    let mut out = chars_of("c-");
    extend_str(&mut out, h.as_str());
    string_of(out.as_slice())
}

/// The first line of the context kept around line `start`.
pub open spec fn context_from(start: usize) -> int {
    let at = if start >= 1 { start - 1 } else { 0 };
    if at >= CONTEXT { at - CONTEXT } else { 0 }
}

/// The line after the last of the context kept around line `start`.
pub open spec fn context_to(start: usize, len: nat) -> int {
    let at = if start >= 1 { start - 1 } else { 0 };
    if at + CONTEXT + 1 <= len { at + CONTEXT + 1 } else { len as int }
}

/// The views of a run of string slices.
pub open spec fn strs_view(v: Seq<&str>) -> Seq<Seq<char>> {
    v.map_values(|s: &str| s@)
}

/// The lines around the anchor, the anchored one in the middle.
pub fn context_of(lines: &[&str], start: usize) -> (out: Vec<String>)
    requires
        context_from(start) <= lines@.len(),
    ensures
        strings_view(out@) == strs_view(lines@).subrange(context_from(start), context_to(start, lines@.len())),
{
    let at = if start >= 1 { start - 1 } else { 0 };
    let from = if at >= CONTEXT { at - CONTEXT } else { 0 };
    let n = lines.len();
    let to = if at < n && n - at > CONTEXT + 1 { at + CONTEXT + 1 } else { n };
    let ghost lv = strs_view(lines@);
    let mut out: Vec<String> = Vec::new();
    let mut i = from;
    while i < to
        invariant
            from <= i <= to,
            to <= lines@.len(),
            lv == strs_view(lines@),
            strings_view(out@) == lv.subrange(from as int, i as int),
        decreases to - i,
    {
        let ghost before = strings_view(out@);
        out.push(lines[i].to_owned());
        assert(lv[i as int] == lines@[i as int]@);
        assert(strings_view(out@) =~= before.push(lv[i as int]));
        assert(lv.subrange(from as int, i + 1) =~= lv.subrange(from as int, i as int).push(lv[i as int]));
        i = i + 1;
    }
    out
}

/// The counts the series pane shows: none when the review could not be
/// read, which must not stop the series from loading.
pub fn counts(file: Option<&ChangeFile>) -> (c: Counts)
    ensures
        c == match file {
            Some(f) => Counts { total: f.comments@.len() as usize, reviewed: f.reviewed },
            None => Counts { total: 0, reviewed: false },
        },
{
    match file {
        Some(f) => Counts { total: f.comments.len(), reviewed: f.reviewed },
        None => Counts { total: 0, reviewed: false },
    }
}

/// Mark a change read, or unread.
pub fn mark(file: &mut ChangeFile, reviewed: bool) -> (out: bool)
    ensures
        out == reviewed,
        *final(file) == (ChangeFile { reviewed, ..*old(file) }),
{
    file.reviewed = reviewed;
    reviewed
}

/// The first comment with the id.
pub open spec fn first_with_id(cs: Seq<CommentView>, id: Seq<char>) -> Option<int>
    decreases cs.len(),
{
    if cs.len() == 0 {
        None
    } else {
        match first_with_id(cs.drop_last(), id) {
            Some(k) => Some(k),
            None => if cs.last().id == id {
                Some(cs.len() - 1)
            } else {
                None
            },
        }
    }
}

proof fn lemma_first_with_id(cs: Seq<CommentView>, id: Seq<char>, k: int)
    requires
        0 <= k <= cs.len(),
        forall|j: int| 0 <= j < k ==> (#[trigger] cs[j]).id != id,
        k < cs.len() ==> cs[k].id == id,
    ensures
        first_with_id(cs, id) == (if k < cs.len() {
            Some(k)
        } else {
            None::<int>
        }),
    decreases cs.len(),
{
    if cs.len() > 0 {
        let t = cs.drop_last();
        if k < cs.len() - 1 {
            assert(t[k] == cs[k]);
            assert forall|j: int| 0 <= j < k implies (#[trigger] t[j]).id != id by {
                assert(t[j] == cs[j]);
            }
            lemma_first_with_id(t, id, k);
        } else {
            assert forall|j: int| 0 <= j < t.len() implies (#[trigger] t[j]).id != id by {
                assert(t[j] == cs[j]);
            }
            lemma_first_with_id(t, id, t.len() as int);
        }
    }
}

proof fn lemma_first_with_id_found(cs: Seq<CommentView>, id: Seq<char>)
    ensures
        first_with_id(cs, id) matches Some(k) ==> 0 <= k < cs.len() && cs[k].id == id,
    decreases cs.len(),
{
    if cs.len() > 0 {
        lemma_first_with_id_found(cs.drop_last(), id);
    }
}

/// Where the comment with the id stands.
fn find_comment(cs: &Vec<Comment>, id: &str) -> (k: Option<usize>)
    ensures
        match k {
            Some(k) => first_with_id(comments_view(cs@), id@) == Some(k as int),
            None => first_with_id(comments_view(cs@), id@) is None,
        },
{
    let ghost v = comments_view(cs@);
    let mut i: usize = 0;
    while i < cs.len()
        invariant
            i <= cs@.len(),
            v == comments_view(cs@),
            forall|j: int| 0 <= j < i ==> (#[trigger] v[j]).id != id@,
        decreases cs@.len() - i,
    {
        assert(v[i as int] == cs@[i as int]@);
        if same_str(cs[i].id.as_str(), id) {
            proof {
                lemma_first_with_id(v, id@, i as int);
            }
            return Some(i);
        }
        i = i + 1;
    }
    proof {
        lemma_first_with_id(v, id@, v.len() as int);
    }
    None
}

/// "no comment" and the id.
fn no_comment(id: &str) -> (e: String)
    ensures
        e@ == "no comment "@ + id@,
{
    let mut v = chars_of("no comment ");
    extend_str(&mut v, id);
    string_of(v.as_slice())
}

/// The comment once edited: the new text without its trailing blank when
/// there is one, and the moment of the edit.
pub open spec fn edited(c: CommentView, body: Option<Seq<char>>, now: Seq<char>) -> CommentView {
    CommentView {
        body: match body {
            Some(b) => trim_end(b),
            None => c.body,
        },
        updated_at: now,
        ..c
    }
}

/// Change the text of a comment at the moment `now`.
///
/// An id nobody wrote is an error, and so is a text that says nothing:
/// delete the comment instead. Either leaves the review as it was.
pub fn edit_at(file: &mut ChangeFile, id: &str, change: EditComment, now: String) -> (out: Result<Comment, String>)
    ensures
        final(file).version == old(file).version,
        final(file).key == old(file).key,
        final(file).subject == old(file).subject,
        final(file).reviewed == old(file).reviewed,
        match first_with_id(comments_view(old(file).comments@), id@) {
            None => out matches Err(e) && e@ == "no comment "@ + id@ && final(file).comments
                == old(file).comments,
            Some(k) => if change.body matches Some(b) && trim(b@).len() == 0 {
                out matches Err(e) && e@ == "a comment with no text says nothing. Delete it instead"@
                    && final(file).comments == old(file).comments
            } else {
                let c = edited(comments_view(old(file).comments@)[k], opt_view(change.body), now@);
                &&& out matches Ok(u) && u@ == c
                &&& comments_view(final(file).comments@) == comments_view(old(file).comments@).update(k, c)
            },
        },
{
    let k = match find_comment(&file.comments, id) {
        Some(k) => k,
        None => return Err(no_comment(id)),
    };
    let body = match change.body {
        Some(b) => {
            let t = trim_chars(chars_of(b.as_str()).as_slice());
            if t.len() == 0 {
                return Err("a comment with no text says nothing. Delete it instead".to_owned());
            }
            Some(string_of(trim_end_chars(chars_of(b.as_str()).as_slice()).as_slice()))
        },
        None => None,
    };
    let ghost before = comments_view(file.comments@);
    proof {
        lemma_first_with_id_found(before, id@);
    }
    assert(before.len() == file.comments@.len());
    assert(before[k as int] == file.comments@[k as int]@);
    let mut c = file.comments.remove(k);
    if let Some(b) = body {
        c.body = b;
    }
    c.updated_at = now;
    let out = copy_comment(&c);
    file.comments.insert(k, c);
    assert(comments_view(file.comments@) =~= before.update(k as int, out@));
    Ok(out)
}

/// Change the text of a comment, now.
pub fn edit(file: &mut ChangeFile, id: &str, change: EditComment) -> (out: Result<Comment, String>)
    ensures
        final(file).version == old(file).version,
        final(file).key == old(file).key,
        final(file).subject == old(file).subject,
        final(file).reviewed == old(file).reviewed,
        first_with_id(comments_view(old(file).comments@), id@) is None ==> (out matches Err(e) && e@
            == "no comment "@ + id@ && final(file).comments == old(file).comments),
        out is Err ==> final(file).comments == old(file).comments,
        out matches Ok(u) ==> (first_with_id(comments_view(old(file).comments@), id@) matches Some(k)
            && u@.id == comments_view(old(file).comments@)[k].id && comments_view(final(file).comments@)
            == comments_view(old(file).comments@).update(k, u@)),
{
    edit_at(file, id, change, stamp_of(now()))
}

/// The comments but those with the id, in order.
pub open spec fn without(cs: Seq<CommentView>, id: Seq<char>) -> Seq<CommentView>
    decreases cs.len(),
{
    if cs.len() == 0 {
        cs
    } else if cs.last().id == id {
        without(cs.drop_last(), id)
    } else {
        without(cs.drop_last(), id).push(cs.last())
    }
}

/// Delete a comment. An id nobody wrote is an error and leaves the review
/// as it was; otherwise every comment with the id goes, and the answer is
/// how many did.
pub fn delete(file: &mut ChangeFile, id: &str) -> (out: Result<usize, String>)
    ensures
        final(file).version == old(file).version,
        final(file).key == old(file).key,
        final(file).subject == old(file).subject,
        final(file).reviewed == old(file).reviewed,
        match first_with_id(comments_view(old(file).comments@), id@) {
            None => out matches Err(e) && e@ == "no comment "@ + id@ && final(file).comments
                == old(file).comments,
            Some(k) => {
                &&& comments_view(final(file).comments@) == without(comments_view(old(file).comments@), id@)
                &&& out matches Ok(n) && n == old(file).comments@.len() - final(file).comments@.len()
            },
        },
{
    match find_comment(&file.comments, id) {
        None => return Err(no_comment(id)),
        Some(_) => {},
    }
    let ghost all = comments_view(file.comments@);
    let before = file.comments.len();
    let n = before;
    let mut rest: Vec<Comment> = Vec::new();
    std::mem::swap(&mut rest, &mut file.comments);
    let mut kept: Vec<Comment> = Vec::new();
    let mut i: usize = 0;
    while i < n
        invariant
            i <= n,
            n == all.len(),
            comments_view(rest@) == all.subrange(i as int, n as int),
            comments_view(kept@) == without(all.subrange(0, i as int), id@),
            kept@.len() <= i,
        decreases n - i,
    {
        assert(comments_view(rest@).len() == rest@.len());
        assert(comments_view(rest@)[0] == rest@[0]@);
        assert(all.subrange(i as int, n as int)[0] == all[i as int]);
        let ghost prior = rest@;
        let c = rest.remove(0);
        assert forall|k: int| 0 <= k < rest@.len() implies #[trigger] rest@[k]@ == all[i + 1 + k] by {
            assert(rest@[k] == prior[k + 1]);
            assert(comments_view(prior)[k + 1] == prior[k + 1]@);
        }
        assert(comments_view(rest@) =~= all.subrange(i + 1, n as int));
        let ghost sub = all.subrange(0, i + 1);
        assert(sub.drop_last() == all.subrange(0, i as int));
        assert(sub.last() == c@);
        if !same_str(c.id.as_str(), id) {
            let ghost kv = comments_view(kept@);
            kept.push(c);
            assert(comments_view(kept@) =~= kv.push(sub.last()));
        }
        i = i + 1;
    }
    assert(all.subrange(0, n as int) == all);
    let after = kept.len();
    file.comments = kept;
    Ok(before - after)
}

/// A text that says nothing: empty once trimmed.
pub fn says_nothing(body: &str) -> (b: bool)
    ensures
        b == (trim(body@).len() == 0),
{
    trim_chars(chars_of(body).as_slice()).len() == 0
}

/// The comment the interface asked for, written at `now` under `id` on the
/// patch set and commit being read, sitting where `anchor` says.
///
/// A comment with no text says nothing, and is refused.
pub fn compose(
    new: NewComment,
    id: String,
    patch_set: usize,
    commit: String,
    now: String,
    anchor: Option<Anchor>,
) -> (out: Result<Comment, String>)
    ensures
        match out {
            Ok(c) => trim(new.body@).len() > 0 && c@ == (CommentView {
                id: id@,
                patch_set,
                commit: commit@,
                created_at: now@,
                updated_at: now@,
                scope: new.scope,
                body: trim_end(new.body@),
                anchor: crate::store::model::anchor_view(anchor),
            }),
            Err(e) => trim(new.body@).len() == 0 && e@ == "a comment with no text says nothing"@,
        },
{
    if says_nothing(new.body.as_str()) {
        return Err("a comment with no text says nothing".to_owned());
    }
    let body = string_of(trim_end_chars(chars_of(new.body.as_str()).as_slice()).as_slice());
    Ok(
        Comment {
            id,
            patch_set,
            commit,
            created_at: copy_string(&now),
            updated_at: now,
            scope: new.scope,
            body,
            anchor,
        },
    )
}

/// Write a comment into the review of its change: a comment with no text is
/// refused and the review stays as it was; otherwise the comment is composed
/// as `compose` does, with the anchor read for it when it is about a line or
/// a file and none when it is about the whole change, and appended after the
/// comments the review holds.
pub fn add_to(
    file: &mut ChangeFile,
    new: NewComment,
    id: String,
    patch_set: usize,
    commit: String,
    now: String,
    anchor: Option<Anchor>,
) -> (out: Result<Comment, String>)
    requires
        new.scope != Scope::Change ==> anchor is Some,
    ensures
        final(file).version == old(file).version,
        final(file).key == old(file).key,
        final(file).subject == old(file).subject,
        final(file).reviewed == old(file).reviewed,
        match out {
            Ok(c) => trim(new.body@).len() > 0 && c@ == (CommentView {
                id: id@,
                patch_set,
                commit: commit@,
                created_at: now@,
                updated_at: now@,
                scope: new.scope,
                body: trim_end(new.body@),
                anchor: if new.scope == Scope::Change {
                    None
                } else {
                    crate::store::model::anchor_view(anchor)
                },
            }) && (c@.anchor is None <==> new.scope == Scope::Change)
                && comments_view(final(file).comments@) == comments_view(old(file).comments@).push(c@),
            Err(e) => trim(new.body@).len() == 0 && e@ == "a comment with no text says nothing"@
                && final(file).comments == old(file).comments,
        },
{
    let kept = match new.scope {
        Scope::Change => None,
        _ => anchor,
    };
    let scope = new.scope;
    match compose(new, id, patch_set, commit, now, kept) {
        Ok(c) => {
            let ghost before = comments_view(file.comments@);
            file.comments.push(copy_comment(&c));
            assert(comments_view(file.comments@) =~= before.push(c@));
            Ok(c)
        },
        Err(e) => Err(e),
    }
}

/// The anchor a new comment starts from: the file it names, the side (the
/// new one unless it says), the lines and characters it covers, the last
/// line being the first when it names none. A comment on a file has no
/// line. Nothing is read yet.
pub open spec fn spec_anchor_start(new: NewComment) -> Result<AnchorView, Seq<char>> {
    match new.file {
        None => Err("a comment on a line or a file must name the file"@),
        Some(f) => {
            let side = match new.side {
                Some(s) => s,
                None => Side::New,
            };
            if new.scope == Scope::File {
                Ok(
                    AnchorView {
                        file: f@,
                        side,
                        start_line: None,
                        end_line: None,
                        start_char: new.start_char,
                        end_char: new.end_char,
                        blob: None,
                        line_hash: None,
                        context: Seq::empty(),
                    },
                )
            } else if new.start_line is None {
                Err("a comment on a line needs the line"@)
            } else {
                Ok(
                    AnchorView {
                        file: f@,
                        side,
                        start_line: new.start_line,
                        end_line: match new.end_line {
                            Some(e) => Some(e),
                            None => new.start_line,
                        },
                        start_char: new.start_char,
                        end_char: new.end_char,
                        blob: None,
                        line_hash: None,
                        context: Seq::empty(),
                    },
                )
            }
        },
    }
}

/// The anchor a new comment starts from, before any line is read.
pub fn anchor_start(new: &NewComment) -> (out: Result<Anchor, String>)
    ensures
        match (out, spec_anchor_start(*new)) {
            (Ok(a), Ok(v)) => a@ == v,
            (Err(e), Err(m)) => e@ == m,
            _ => false,
        },
{
    let file = match &new.file {
        Some(f) => copy_string(f),
        None => return Err("a comment on a line or a file must name the file".to_owned()),
    };
    let side = match new.side {
        Some(s) => s,
        None => Side::New,
    };
    let (start_line, end_line) = match new.scope {
        Scope::File => (None, None),
        _ => match new.start_line {
            None => return Err("a comment on a line needs the line".to_owned()),
            Some(s) => (
                Some(s),
                match new.end_line {
                    Some(e) => Some(e),
                    None => Some(s),
                },
            ),
        },
    };
    let a = Anchor {
        file,
        side,
        start_line,
        end_line,
        start_char: new.start_char,
        end_char: new.end_char,
        blob: None,
        line_hash: None,
        context: Vec::new(),
    };
    assert(a@.context =~= Seq::empty());
    Ok(a)
}

/// A comment on lines keeps the range it names: its anchor is on the file
/// it names, on the side it names or the new one, starts on the line it
/// names, and ends on the end line it gives, or on its first line when it
/// gives none. A comment on a whole file has no line, and a comment that
/// names no file, or a line comment that names no line, is refused.
pub proof fn law_a_comment_keeps_its_range(new: NewComment)
    ensures
        new.file is None ==> spec_anchor_start(new) is Err,
        new.file is Some && new.scope != Scope::File && new.start_line is None
            ==> spec_anchor_start(new) is Err,
        new.file is Some && (new.scope == Scope::File || new.start_line is Some) ==> (match spec_anchor_start(new) {
            Ok(a) => a.file == new.file->0@ && a.start_char == new.start_char && a.end_char
                == new.end_char && a.side == (match new.side {
                Some(s) => s,
                None => Side::New,
            }),
            Err(_) => false,
        }),
        new.file is Some && new.scope == Scope::File ==> (match spec_anchor_start(new) {
            Ok(a) => a.start_line is None && a.end_line is None,
            Err(_) => false,
        }),
        new.file is Some && new.scope != Scope::File && new.start_line is Some ==> (match spec_anchor_start(new) {
            Ok(a) => a.start_line == new.start_line && (new.end_line is Some ==> a.end_line
                == new.end_line) && (new.end_line is None ==> a.end_line == new.start_line),
            Err(_) => false,
        }),
{
}

/// The anchor once the text it sits in is read: the blob it was read from,
/// the hash of its line when the text has that line, and the lines around.
pub open spec fn spec_filled(a: AnchorView, blob: Option<Seq<char>>, text: Seq<char>) -> AnchorView {
    let ls = lines(text);
    let start = a.start_line->0;
    AnchorView {
        blob: match blob {
            Some(b) => Some(b),
            None => a.blob,
        },
        line_hash: if start - 1 < ls.len() {
            Some(spec_hash_line(ls[start - 1]))
        } else {
            None
        },
        context: ls.subrange(context_from(start), context_to(start, ls.len())),
        ..a
    }
}

/// Fill in the anchor from the text its lines were read in, and the blob
/// when the text is a file of the tree. The commit message has no blob: the
/// line hash and the context are what carry the comment to the next patch
/// set.
pub fn fill(anchor: &mut Anchor, blob: Option<String>, text: &str)
    requires
        old(anchor).start_line matches Some(s) && s >= 1 && context_from(s) <= lines(text@).len(),
    ensures
        final(anchor)@ == spec_filled(old(anchor)@, opt_view(blob), text@),
{
    let start = match anchor.start_line {
        Some(s) => s,
        None => 0,
    };
    let v = chars_of(text);
    let ls = lines_of(v.as_slice());
    let ghost lv = lines(text@);
    let mut strs: Vec<String> = Vec::new();
    let mut i: usize = 0;
    while i < ls.len()
        invariant
            i <= ls@.len(),
            ls@.len() == lv.len(),
            forall|k: int| 0 <= k < ls@.len() ==> #[trigger] ls@[k]@ == lv[k],
            strings_view(strs@) == lv.subrange(0, i as int),
        decreases ls@.len() - i,
    {
        let ghost before = strings_view(strs@);
        strs.push(string_of(ls[i].as_slice()));
        assert(strings_view(strs@) =~= before.push(lv[i as int]));
        assert(lv.subrange(0, i + 1) =~= lv.subrange(0, i as int).push(lv[i as int]));
        i = i + 1;
    }
    assert(lv.subrange(0, lv.len() as int) == lv);
    let mut refs: Vec<&str> = Vec::new();
    let mut j: usize = 0;
    while j < strs.len()
        invariant
            j <= strs@.len(),
            strs_view(refs@) == strings_view(strs@).subrange(0, j as int),
        decreases strs@.len() - j,
    {
        let ghost before = strs_view(refs@);
        refs.push(strs[j].as_str());
        assert(strs_view(refs@) =~= before.push(strs@[j as int]@));
        assert(strings_view(strs@).subrange(0, j + 1) =~= strings_view(strs@).subrange(0, j as int).push(strs@[j as int]@));
        j = j + 1;
    }
    assert(strings_view(strs@).subrange(0, strs@.len() as int) == strings_view(strs@));
    if let Some(b) = blob {
        anchor.blob = Some(b);
    }
    anchor.line_hash = if start - 1 < strs.len() {
        Some(hash_line(strs[start - 1].as_str()))
    } else {
        None
    };
    anchor.context = context_of(refs.as_slice(), start);
}

/// Deleting a comment keeps the others as they were, in their order: what
/// goes is exactly the comments with the id.
pub proof fn law_delete_keeps_the_others(cs: Seq<CommentView>, id: Seq<char>)
    ensures
        forall|k: int| 0 <= k < without(cs, id).len() ==> (#[trigger] without(cs, id)[k]).id != id,
        without(cs, id).len() <= cs.len(),
        forall|k: int| 0 <= k < cs.len() && (#[trigger] cs[k]).id != id ==> without(cs, id).contains(cs[k]),
    decreases cs.len(),
{
    if cs.len() > 0 {
        let t = cs.drop_last();
        law_delete_keeps_the_others(t, id);
        assert forall|k: int| 0 <= k < cs.len() && (#[trigger] cs[k]).id != id implies without(cs, id).contains(cs[k]) by {
            if k < cs.len() - 1 {
                assert(t[k] == cs[k]);
                assert(without(t, id).contains(t[k]));
                let j = choose|j: int| 0 <= j < without(t, id).len() && without(t, id)[j] == t[k];
                assert(without(cs, id)[j] == cs[k]);
            } else {
                assert(without(cs, id).last() == cs[k]);
                assert(without(cs, id)[without(cs, id).len() - 1] == cs[k]);
            }
        }
    }
}

/// A comment belongs to the version under review when it names that
/// commit, or names none (a comment written before comments named one).
pub open spec fn spec_of_version(c: CommentView, commit: Seq<char>) -> bool {
    c.commit.len() == 0 || c.commit == commit
}

/// Whether a comment belongs to the version `commit`: the round before this
/// one left remarks the reader has already dealt with.
pub fn of_version(comment: &Comment, commit: &str) -> (b: bool)
    ensures
        b == spec_of_version(comment@, commit@),
{
    comment.commit.as_str().is_empty() || same_str(comment.commit.as_str(), commit)
}

/// The test of `spec_of_version` for one commit.
pub open spec fn live_in(commit: Seq<char>) -> spec_fn(CommentView) -> bool {
    |c: CommentView| spec_of_version(c, commit)
}

/// The comments of the version `commit`, in their order, and how many of
/// the others were left out.
pub fn live_comments(comments: &Vec<Comment>, commit: &str) -> (out: (Vec<Comment>, usize))
    ensures
        comments_view(out.0@) == comments_view(comments@).filter(live_in(commit@)),
        out.1 == comments@.len() - out.0@.len(),
{
    let ghost cv = comments_view(comments@);
    let ghost pred = live_in(commit@);
    let mut kept: Vec<Comment> = Vec::new();
    let mut i: usize = 0;
    proof {
        reveal(Seq::filter);
    }
    assert(cv.take(0).filter(pred) =~= Seq::<CommentView>::empty());
    while i < comments.len()
        invariant
            i <= comments@.len(),
            cv == comments_view(comments@),
            pred == live_in(commit@),
            comments_view(kept@) == cv.take(i as int).filter(pred),
            kept@.len() <= i,
        decreases comments@.len() - i,
    {
        assert(cv.take(i + 1).drop_last() =~= cv.take(i as int));
        assert(cv.take(i + 1).last() == comments@[i as int]@);
        assert(pred(comments@[i as int]@) == spec_of_version(comments@[i as int]@, commit@));
        proof {
            reveal(Seq::filter);
        }
        if of_version(&comments[i], commit) {
            let ghost before = comments_view(kept@);
            kept.push(copy_comment(&comments[i]));
            assert(comments_view(kept@) =~= before.push(comments@[i as int]@));
        }
        i = i + 1;
    }
    assert(cv.take(comments@.len() as int) =~= cv);
    let n = kept.len();
    (kept, comments.len() - n)
}

/// Whether a review holds a comment of the version `commit`.
pub open spec fn has_live(cs: Seq<CommentView>, commit: Seq<char>) -> bool {
    exists|k: int| 0 <= k < cs.len() && spec_of_version(#[trigger] cs[k], commit)
}

/// The keys of the changes whose review holds a comment of their own
/// version, oldest first: `changes` is newest first, and `files[k]` is the
/// review of `changes[k]`.
pub open spec fn spec_reviewed_keys(changes: Seq<crate::model::ChangeSummaryView>, files: Seq<Seq<CommentView>>) -> Seq<Seq<char>>
    decreases changes.len(),
{
    if changes.len() == 0 || files.len() == 0 {
        Seq::empty()
    } else {
        let rest = spec_reviewed_keys(changes.drop_first(), files.drop_first());
        if has_live(files[0], changes[0].commit) {
            rest.push(changes[0].key)
        } else {
            rest
        }
    }
}

/// The comments of each review.
pub open spec fn files_comments(files: Seq<ChangeFile>) -> Seq<Seq<CommentView>> {
    files.map_values(|f: ChangeFile| comments_view(f.comments@))
}

/// Which changes an export of the series covers: those with a comment of
/// their own version, oldest first, because a review reads the commit the
/// others were built on first. A change whose remarks all belong to a round
/// before this one has nothing to say here.
pub fn reviewed_keys(changes: &Vec<crate::model::ChangeSummary>, files: &Vec<ChangeFile>) -> (out: Vec<String>)
    requires
        files@.len() == changes@.len(),
    ensures
        strings_view(out@) == spec_reviewed_keys(crate::model::summaries_view(changes@), files_comments(files@)),
{
    let ghost sv = crate::model::summaries_view(changes@);
    let ghost fv = files_comments(files@);
    let mut out: Vec<String> = Vec::new();
    let mut i: usize = changes.len();
    assert(sv.subrange(i as int, sv.len() as int) =~= Seq::<crate::model::ChangeSummaryView>::empty());
    while i > 0
        invariant
            i <= changes@.len(),
            files@.len() == changes@.len(),
            sv == crate::model::summaries_view(changes@),
            fv == files_comments(files@),
            strings_view(out@) == spec_reviewed_keys(sv.subrange(i as int, sv.len() as int), fv.subrange(i as int, fv.len() as int)),
        decreases i,
    {
        let k = i - 1;
        let ghost subs = sv.subrange(k as int, sv.len() as int);
        let ghost subf = fv.subrange(k as int, fv.len() as int);
        assert(subs.drop_first() =~= sv.subrange(i as int, sv.len() as int));
        assert(subf.drop_first() =~= fv.subrange(i as int, fv.len() as int));
        assert(subs[0] == changes@[k as int]@);
        assert(subf[0] == comments_view(files@[k as int].comments@));
        let cs = &files[k].comments;
        let mut live = false;
        let mut j: usize = 0;
        while j < cs.len()
            invariant
                j <= cs@.len(),
                k < changes@.len(),
                k < files@.len(),
                cs == files@[k as int].comments,
                live == exists|m: int| 0 <= m < j && spec_of_version(#[trigger] comments_view(cs@)[m], changes@[k as int].commit@),
            decreases cs@.len() - j,
        {
            if of_version(&cs[j], changes[k].commit.as_str()) {
                live = true;
                assert(comments_view(cs@)[j as int] == cs@[j as int]@);
            } else {
                assert(comments_view(cs@)[j as int] == cs@[j as int]@);
            }
            j = j + 1;
        }
        assert(live == has_live(subf[0], subs[0].commit));
        if live {
            let ghost before = strings_view(out@);
            out.push(copy_string(&changes[k].key));
            assert(strings_view(out@) =~= before.push(changes@[k as int].key@));
        }
        i = k;
    }
    assert(sv.subrange(0, sv.len() as int) =~= sv);
    assert(fv.subrange(0, fv.len() as int) =~= fv);
    out
}

/// Where a comment stands in the reading: the change as a whole first, then
/// the files by name, and in a file its remark on the whole file, then its
/// lines from the top.
pub open spec fn place_rank(c: CommentView) -> nat {
    if c.anchor is None || c.scope == Scope::Change {
        0
    } else {
        1
    }
}

/// The file a comment is on, or nothing.
pub open spec fn place_file(c: CommentView) -> Seq<char> {
    match c.anchor {
        Some(a) => a.file,
        None => Seq::empty(),
    }
}

/// The line a comment starts on, 0 for the whole file.
pub open spec fn place_line(c: CommentView) -> nat {
    match c.anchor {
        Some(a) => match a.start_line {
            Some(l) => l as nat,
            None => 0,
        },
        None => 0,
    }
}

/// Whether `a` is read before `b`.
pub open spec fn reads_before(a: CommentView, b: CommentView) -> bool {
    ||| place_rank(a) < place_rank(b)
    ||| place_rank(a) == place_rank(b) && crate::patchset::text_lt(place_file(a), place_file(b))
    ||| place_rank(a) == place_rank(b) && place_file(a) == place_file(b) && place_line(a) < place_line(b)
}

/// A comment put into a run in reading order, after those it is not read
/// before.
pub open spec fn insert_by_place(s: Seq<CommentView>, c: CommentView) -> Seq<CommentView>
    decreases s.len(),
{
    if s.len() == 0 {
        seq![c]
    } else if reads_before(c, s[0]) {
        seq![c] + s
    } else {
        seq![s[0]] + insert_by_place(s.drop_first(), c)
    }
}

/// The comments in reading order; two at the same place stay in the order
/// they were written.
pub open spec fn reading_order(s: Seq<CommentView>) -> Seq<CommentView>
    decreases s.len(),
{
    if s.len() == 0 {
        s
    } else {
        insert_by_place(reading_order(s.drop_last()), s.last())
    }
}

proof fn lemma_insert_by_place_at(s: Seq<CommentView>, c: CommentView, k: int)
    requires
        0 <= k <= s.len(),
        forall|j: int| 0 <= j < k ==> !reads_before(c, #[trigger] s[j]),
        k < s.len() ==> reads_before(c, s[k]),
    ensures
        insert_by_place(s, c) == s.insert(k, c),
    decreases s.len(),
{
    if s.len() == 0 {
        assert(s.insert(k, c) =~= seq![c]);
    } else if k == 0 {
        assert(s.insert(0, c) =~= seq![c] + s);
    } else {
        let t = s.drop_first();
        assert forall|j: int| 0 <= j < k - 1 implies !reads_before(c, #[trigger] t[j]) by {
            assert(t[j] == s[j + 1]);
        }
        if k < s.len() {
            assert(t[k - 1] == s[k]);
        }
        lemma_insert_by_place_at(t, c, k - 1);
        assert(seq![s[0]] + t.insert(k - 1, c) =~= s.insert(k, c));
    }
}

/// Whether `a` is read before `b`.
fn read_before(a: &Comment, b: &Comment) -> (r: bool)
    ensures
        r == reads_before(a@, b@),
{
    let ra: usize = match &a.anchor {
        Some(_) => if a.scope == Scope::Change { 0 } else { 1 },
        None => 0,
    };
    let rb: usize = match &b.anchor {
        Some(_) => if b.scope == Scope::Change { 0 } else { 1 },
        None => 0,
    };
    if ra != rb {
        return ra < rb;
    }
    let empty = String::new();
    let fa = match &a.anchor {
        Some(x) => &x.file,
        None => &empty,
    };
    let fb = match &b.anchor {
        Some(x) => &x.file,
        None => &empty,
    };
    if crate::patchset::text_before(fa.as_str(), fb.as_str()) {
        return true;
    }
    if !same_str(fa.as_str(), fb.as_str()) {
        return false;
    }
    let la: usize = match &a.anchor {
        Some(x) => match x.start_line {
            Some(l) => l,
            None => 0,
        },
        None => 0,
    };
    let lb: usize = match &b.anchor {
        Some(x) => match x.start_line {
            Some(l) => l,
            None => 0,
        },
        None => 0,
    };
    la < lb
}

/// Put the comments of an export in reading order: the change as a whole
/// first, then file by file, each file from the top; two comments at one
/// place keep the order they were written in.
pub fn in_reading_order(comments: &mut Vec<Comment>)
    ensures
        comments_view(final(comments)@) == reading_order(comments_view(old(comments)@)),
{
    let mut src: Vec<Comment> = Vec::new();
    std::mem::swap(&mut src, comments);
    let ghost cv = comments_view(src@);
    assert(cv == comments_view(old(comments)@));
    let mut out: Vec<Comment> = Vec::new();
    let mut i: usize = 0;
    assert(cv.take(0) =~= Seq::<CommentView>::empty());
    while i < src.len()
        invariant
            i <= src@.len(),
            cv == comments_view(src@),
            comments_view(out@) == reading_order(cv.take(i as int)),
        decreases src@.len() - i,
    {
        let c = copy_comment(&src[i]);
        let ghost e = cv[i as int];
        assert(e == c@);
        assert(cv.take(i as int + 1).drop_last() =~= cv.take(i as int));
        assert(cv.take(i as int + 1).last() == e);
        let ghost have = comments_view(out@);
        let mut k: usize = 0;
        while k < out.len() && !read_before(&c, &out[k])
            invariant
                0 <= k <= out@.len(),
                have == comments_view(out@),
                e == c@,
                forall|j: int| 0 <= j < k ==> !reads_before(e, #[trigger] have[j]),
            decreases out@.len() - k,
        {
            assert(have[k as int] == out@[k as int]@);
            k = k + 1;
        }
        proof {
            if k < out@.len() {
                assert(have[k as int] == out@[k as int]@);
            }
            lemma_insert_by_place_at(have, e, k as int);
        }
        out.insert(k, c);
        assert(comments_view(out@) =~= have.insert(k as int, e));
        i = i + 1;
    }
    assert(cv.take(src@.len() as int) =~= cv);
    *comments = out;
}

} // verus!
