//! Where the comments live.
//!
//! Under the state directory of the user, keyed by repository and then by
//! change. The data survives a `git clean`, a worktree removal and a
//! reclone, and it never enters the working tree, so it can never be
//! committed by accident.

pub mod model;

use vstd::prelude::*;
use crate::config::{join, joined};
use crate::text::{chars_of, extend_str, string_of};
use self::model::{ChangeFile, VERSION};

verus! {

/// The comments of one repository.
pub struct Store {
    /// The directory that holds one file per change.
    pub changes: String,
}

/// A character a key keeps as it is in a file name.
pub open spec fn kept_in_name(c: char) -> bool {
    ('a' <= c && c <= 'z') || ('A' <= c && c <= 'Z') || ('0' <= c && c <= '9') || c == '-' || c == '_'
}

/// A key as a file name: every character but an ASCII letter, a digit, `-`
/// and `_` becomes `_`.
pub open spec fn spec_safe(key: Seq<char>) -> Seq<char> {
    Seq::new(key.len(), |i: int| if kept_in_name(key[i]) { key[i] } else { '_' })
}

/// A key is a Change-Id or `sha-<hash>`, but a corrupt one must never write
/// outside the store.
pub fn safe(key: &str) -> (out: String)
    ensures
        out@ == spec_safe(key@),
{
    let v = chars_of(key);
    let mut out: Vec<char> = Vec::new();
    let mut i: usize = 0;
    while i < v.len()
        invariant
            i <= v@.len(),
            v@ == key@,
            out@ == spec_safe(key@).subrange(0, i as int),
        decreases v@.len() - i,
    {
        let c = v[i];
        let kept = ('a' <= c && c <= 'z') || ('A' <= c && c <= 'Z') || ('0' <= c && c <= '9') || c == '-'
            || c == '_';
        if kept {
            out.push(c);
        } else {
            out.push('_');
        }
        assert(out@ =~= spec_safe(key@).subrange(0, i + 1));
        i = i + 1;
    }
    assert(spec_safe(key@).subrange(0, v@.len() as int) == spec_safe(key@));
    string_of(out.as_slice())
}

/// The state directory of the user: `$XDG_STATE_HOME` when it is set and not
/// empty, else `$HOME/.local/state`, else `.qreview-state`.
pub open spec fn spec_state_home(state_home: Option<Seq<char>>, home: Option<Seq<char>>) -> Seq<char> {
    match state_home {
        Some(dir) if dir.len() > 0 => dir,
        _ => match home {
            Some(h) => joined(joined(h, ".local"@), "state"@),
            None => ".qreview-state"@,
        },
    }
}

/// The state directory of the user.
pub fn state_home(state_dir: Option<String>, home: Option<String>) -> (out: String)
    ensures
        out@ == spec_state_home(crate::model::opt_view(state_dir), crate::model::opt_view(home)),
{
    match state_dir {
        Some(dir) if !dir.as_str().is_empty() => {
            return dir;
        },
        _ => {},
    }
    match home {
        Some(h) => {
            let local = join(h.as_str(), ".local");
            join(local.as_str(), "state")
        },
        None => ".qreview-state".to_owned(),
    }
}

impl Store {
    /// The store of a repository, under the state directory of the user.
    pub fn open(repo_id: &str, state_dir: &str) -> (s: Self)
        ensures
            s.changes@ == joined(joined(joined(joined(state_dir@, "qreview"@), "repos"@), repo_id@), "changes"@),
    {
        let a = join(state_dir, "qreview");
        let b = join(a.as_str(), "repos");
        let c = join(b.as_str(), repo_id);
        Self::at(c.as_str())
    }

    /// The same, rooted anywhere.
    pub fn at(base: &str) -> (s: Self)
        ensures
            s.changes@ == joined(base@, "changes"@),
    {
        Store { changes: join(base, "changes") }
    }

    /// The file of a change.
    pub fn path_of(&self, key: &str) -> (out: String)
        ensures
            out@ == joined(self.changes@, spec_safe(key@) + ".json"@),
    {
        let mut name = chars_of(safe(key).as_str());
        extend_str(&mut name, ".json");
        let n = string_of(name.as_slice());
        join(self.changes.as_str(), n.as_str())
    }
}

/// A change file as read: refused when a newer qreview wrote it, else
/// stamped with the format this one writes.
///
/// Every format so far reads as the current one, so the stamp is the whole
/// of the migration: the next write then says what the file holds, and an
/// older qreview refuses it rather than dropping what it cannot read.
pub fn stamped(path: &str, file: ChangeFile) -> (out: Result<ChangeFile, String>)
    ensures
        match out {
            Ok(f) => file.version <= VERSION && f == (ChangeFile { version: VERSION, ..file }),
            Err(e) => file.version > VERSION && e@ == path@ + " was written by a newer qreview (format "@
                + crate::text::decimal(file.version as nat) + ", this one reads "@ + crate::text::decimal(
                VERSION as nat,
            ) + ")"@,
        },
{
    if file.version > VERSION {
        let mut msg = chars_of(path);
        extend_str(&mut msg, " was written by a newer qreview (format ");
        let d = crate::text::decimal_of(file.version as usize);
        crate::text::extend(&mut msg, d.as_slice());
        extend_str(&mut msg, ", this one reads ");
        let v = crate::text::decimal_of(VERSION as usize);
        crate::text::extend(&mut msg, v.as_slice());
        extend_str(&mut msg, ")");
        return Err(string_of(msg.as_slice()));
    }
    let mut file = file;
    file.version = VERSION;
    Ok(file)
}

/// A key never writes outside the store: its file name holds no `/`, no
/// `.` before the extension, and nothing but letters, digits, `-` and `_`.
pub proof fn law_a_key_stays_in_the_store(key: Seq<char>)
    ensures
        spec_safe(key).len() == key.len(),
        forall|i: int| 0 <= i < key.len() ==> kept_in_name(#[trigger] spec_safe(key)[i]),
        !spec_safe(key).contains('/'),
        !spec_safe(key).contains('.'),
{
    assert forall|i: int| 0 <= i < key.len() implies kept_in_name(#[trigger] spec_safe(key)[i]) by {}
    if spec_safe(key).contains('/') {
        let i = choose|i: int| 0 <= i < spec_safe(key).len() && spec_safe(key)[i] == '/';
        assert(kept_in_name(spec_safe(key)[i]));
    }
    if spec_safe(key).contains('.') {
        let i = choose|i: int| 0 <= i < spec_safe(key).len() && spec_safe(key)[i] == '.';
        assert(kept_in_name(spec_safe(key)[i]));
    }
}

} // verus!
