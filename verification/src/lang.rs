//! Which language a file is written in.
//!
//! The map is data, not code. Bundled grammars claim the common extensions on
//! their own, so this only carries the ones they do not.

use vstd::prelude::*;
use crate::text::{
    chars_of, lower_chars, lowercase, rfind_char, rfind_char_in, slice, string_of,
    trim_start_char, trim_start_matching,
};

verus! {

/// The value the first pair with the key holds.
pub open spec fn lookup(s: Seq<(Seq<char>, Seq<char>)>, key: Seq<char>) -> Option<Seq<char>>
    decreases s.len(),
{
    if s.len() == 0 {
        None
    } else if s[0].0 == key {
        Some(s[0].1)
    } else {
        lookup(s.drop_first(), key)
    }
}

/// The pairs of strings, as characters.
pub open spec fn pairs_view(v: Seq<(String, String)>) -> Seq<(Seq<char>, Seq<char>)> {
    v.map_values(|p: (String, String)| (p.0@, p.1@))
}

/// A map from text to text. A key holds one value; writing it again
/// replaces the value.
#[derive(Clone, Debug, Default, PartialEq, Eq)]
pub struct Table {
    entries: Vec<(String, String)>,
}

impl View for Table {
    type V = Seq<(Seq<char>, Seq<char>)>;

    closed spec fn view(&self) -> Seq<(Seq<char>, Seq<char>)> {
        pairs_view(self.entries@)
    }
}

proof fn lemma_lookup_same(s: Seq<(Seq<char>, Seq<char>)>, t: Seq<(Seq<char>, Seq<char>)>, key: Seq<char>)
    requires
        s.len() == t.len(),
        forall|j: int| 0 <= j < s.len() ==> ((#[trigger] s[j]).0 == key) == (t[j].0 == key),
        forall|j: int| 0 <= j < s.len() && (#[trigger] s[j]).0 == key ==> s[j].1 == t[j].1,
    ensures
        lookup(s, key) == lookup(t, key),
    decreases s.len(),
{
    if s.len() > 0 {
        assert forall|j: int| 0 <= j < s.len() - 1 implies ((#[trigger] s.drop_first()[j]).0 == key)
            == (t.drop_first()[j].0 == key) by {
            assert(s.drop_first()[j] == s[j + 1]);
            assert(t.drop_first()[j] == t[j + 1]);
        }
        assert forall|j: int| 0 <= j < s.len() - 1 && (#[trigger] s.drop_first()[j]).0 == key
            implies s.drop_first()[j].1 == t.drop_first()[j].1 by {
            assert(s.drop_first()[j] == s[j + 1]);
            assert(t.drop_first()[j] == t[j + 1]);
        }
        lemma_lookup_same(s.drop_first(), t.drop_first(), key);
    }
}

proof fn lemma_lookup_first(s: Seq<(Seq<char>, Seq<char>)>, key: Seq<char>, k: int)
    requires
        0 <= k <= s.len(),
        forall|j: int| 0 <= j < k ==> (#[trigger] s[j]).0 != key,
        k < s.len() ==> s[k].0 == key,
    ensures
        lookup(s, key) == (if k < s.len() {
            Some(s[k].1)
        } else {
            None::<Seq<char>>
        }),
    decreases s.len(),
{
    if s.len() > 0 && k > 0 {
        assert forall|j: int| 0 <= j < k - 1 implies (#[trigger] s.drop_first()[j]).0 != key by {
            assert(s.drop_first()[j] == s[j + 1]);
        }
        if k < s.len() {
            assert(s.drop_first()[k - 1] == s[k]);
        }
        lemma_lookup_first(s.drop_first(), key, k - 1);
    }
}

proof fn lemma_lookup_push(s: Seq<(Seq<char>, Seq<char>)>, p: (Seq<char>, Seq<char>), key: Seq<char>)
    ensures
        lookup(s.push(p), key) == match lookup(s, key) {
            Some(v) => Some(v),
            None => if p.0 == key {
                Some(p.1)
            } else {
                None
            },
        },
    decreases s.len(),
{
    let t = s.push(p);
    if s.len() == 0 {
        assert(t[0] == p);
        assert(t.drop_first().len() == 0);
        assert(lookup(t.drop_first(), key) is None);
    } else {
        assert(t[0] == s[0]);
        assert(t.drop_first() =~= s.drop_first().push(p));
        lemma_lookup_push(s.drop_first(), p, key);
    }
}

impl Table {
    /// The value of the key, when the table holds one.
    pub open spec fn holds(&self, key: Seq<char>) -> Option<Seq<char>> {
        lookup(self@, key)
    }

    /// An empty table.
    pub fn new() -> (t: Table)
        ensures
            t@.len() == 0,
            forall|k: Seq<char>| #[trigger] t.holds(k) is None,
    {
        let t = Table { entries: Vec::new() };
        assert(t@.len() == 0);
        t
    }

    /// The pairs, in the order their keys first came.
    pub fn entries(&self) -> (out: &Vec<(String, String)>)
        ensures
            pairs_view(out@) == self@,
    {
        &self.entries
    }

    /// Write a value under a key, replacing the one it held.
    pub fn insert(&mut self, key: String, value: String)
        ensures
            forall|k: Seq<char>|
                #[trigger] final(self).holds(k) == if k == key@ {
                    Some(value@)
                } else {
                    old(self).holds(k)
                },
    {
        let ghost s = self@;
        let ghost kv = key@;
        let ghost vv = value@;
        let mut i: usize = 0;
        while i < self.entries.len()
            invariant
                i <= self.entries@.len(),
                s == pairs_view(self.entries@),
                kv == key@,
                vv == value@,
                s == old(self)@,
                forall|j: int| 0 <= j < i ==> (#[trigger] s[j]).0 != kv,
            decreases self.entries@.len() - i,
        {
            assert(s[i as int] == (self.entries@[i as int].0@, self.entries@[i as int].1@));
            if crate::text::same_str(self.entries[i].0.as_str(), key.as_str()) {
                let ghost prior = self.entries@;
                self.entries.set(i, (key, value));
                let ghost t = pairs_view(self.entries@);
                assert(self.entries@ == prior.update(i as int, self.entries@[i as int]));
                assert(self.entries@[i as int].0@ == kv);
                assert(self.entries@[i as int].1@ == vv);
                assert(t.len() == s.len());
                assert forall|j: int| 0 <= j < t.len() implies #[trigger] t[j] == s.update(i as int, (kv, vv))[j] by {
                    assert(t[j] == (self.entries@[j].0@, self.entries@[j].1@));
                    assert(s[j] == (prior[j].0@, prior[j].1@));
                    if j != i {
                        assert(self.entries@[j] == prior[j]);
                    }
                }
                assert(t =~= s.update(i as int, (kv, vv)));
                assert(t == self@);
                assert forall|k: Seq<char>| #[trigger] self.holds(k) == if k == kv {
                    Some(vv)
                } else {
                    lookup(s, k)
                } by {
                    if k == kv {
                        lemma_lookup_first(t, k, i as int);
                    } else {
                        lemma_lookup_same(s, t, k);
                    }
                }
                return;
            }
            i = i + 1;
        }
        proof {
            lemma_lookup_first(s, kv, s.len() as int);
        }
        self.entries.push((key, value));
        let ghost t = pairs_view(self.entries@);
        assert(t =~= s.push((kv, vv)));
        assert forall|k: Seq<char>| #[trigger] lookup(t, k) == if k == kv {
            Some(vv)
        } else {
            lookup(s, k)
        } by {
            lemma_lookup_push(s, (kv, vv), k);
            if k == kv {
                lemma_lookup_first(s, k, s.len() as int);
            }
        }
    }

    /// The value of the key, when the table holds one.
    pub fn get(&self, key: &str) -> (out: Option<&String>)
        ensures
            match out {
                Some(v) => self.holds(key@) == Some(v@),
                None => self.holds(key@) is None,
            },
    {
        let ghost s = self@;
        let mut i: usize = 0;
        while i < self.entries.len()
            invariant
                i <= self.entries@.len(),
                s == pairs_view(self.entries@),
                forall|j: int| 0 <= j < i ==> (#[trigger] s[j]).0 != key@,
            decreases self.entries@.len() - i,
        {
            assert(s[i as int] == (self.entries@[i as int].0@, self.entries@[i as int].1@));
            if crate::text::same_str(self.entries[i].0.as_str(), key) {
                proof {
                    lemma_lookup_first(s, key@, i as int);
                }
                return Some(&self.entries[i].1);
            }
            i = i + 1;
        }
        proof {
            lemma_lookup_first(s, key@, s.len() as int);
        }
        None
    }
}

/// An extension as a key of the map: without its leading dots, in lowercase.
pub open spec fn extension_key(ext: Seq<char>) -> Seq<char> {
    lowercase(trim_start_char(ext, '.'))
}

/// The values of a table once the pairs are written on top of it, one after
/// the other, each under the key its extension names.
pub open spec fn layered(base: Option<Seq<char>>, pairs: Seq<(Seq<char>, Seq<char>)>, key: Seq<char>) -> Option<
    Seq<char>,
>
    decreases pairs.len(),
{
    if pairs.len() == 0 {
        base
    } else if extension_key(pairs.last().0) == key {
        Some(pairs.last().1)
    } else {
        layered(base, pairs.drop_last(), key)
    }
}

/// The key an extension is filed under.
pub fn key_of(ext: &str) -> (out: String)
    ensures
        out@ == extension_key(ext@),
{
    let v = chars_of(ext);
    let t = trim_start_matching(v.as_slice(), '.');
    let l = lower_chars(t.as_slice());
    string_of(l.as_slice())
}

/// Write every pair of `user` into `map`, each under the key its extension
/// names. A later pair wins over an earlier one and over what the map held.
pub fn write_all(map: &mut Table, user: &Table)
    ensures
        forall|k: Seq<char>| #[trigger] final(map).holds(k) == layered(old(map).holds(k), user@, k),
{
    let pairs = user.entries();
    let ghost p = user@;
    let ghost start = *map;
    let mut i: usize = 0;
    while i < pairs.len()
        invariant
            i <= pairs@.len(),
            pairs_view(pairs@) == p,
            forall|k: Seq<char>| #[trigger] map.holds(k) == layered(start.holds(k), p.subrange(0, i as int), k),
        decreases pairs@.len() - i,
    {
        let key = key_of(pairs[i].0.as_str());
        let value = crate::text::copy_string(&pairs[i].1);
        assert(p[i as int] == (pairs@[i as int].0@, pairs@[i as int].1@));
        let ghost before = *map;
        map.insert(key, value);
        assert forall|k: Seq<char>| #[trigger] map.holds(k) == layered(start.holds(k), p.subrange(0, i + 1), k) by {
            assert(p.subrange(0, i + 1).drop_last() == p.subrange(0, i as int));
            assert(p.subrange(0, i + 1).last() == p[i as int]);
            assert(before.holds(k) == layered(start.holds(k), p.subrange(0, i as int), k));
        }
        i = i + 1;
    }
    assert(p.subrange(0, p.len() as int) == p);
}

/// The extensions no bundled grammar claims.
pub open spec fn defaults() -> Seq<(Seq<char>, Seq<char>)> {
    seq![
        ("blk"@, "c"@),
        ("blkk"@, "c"@),
        ("pxc"@, "c"@),
        ("pyx"@, "python"@),
        ("pxd"@, "python"@),
        ("pxi"@, "python"@),
        ("iop"@, "d"@),
        ("tpl"@, "jinja2"@),
    ]
}

/// The last part of a path, after its last `/`.
pub open spec fn base_name(path: Seq<char>) -> Seq<char> {
    match rfind_char(path, '/') {
        Some(i) => path.subrange(i + 1, path.len() as int),
        None => path,
    }
}

/// The extension of a path: what follows the last `.` of its last part.
pub open spec fn extension(path: Seq<char>) -> Option<Seq<char>> {
    let name = base_name(path);
    match rfind_char(name, '.') {
        Some(i) => Some(name.subrange(i + 1, name.len() as int)),
        None => None,
    }
}

/// The map from extension to language name.
#[derive(Clone, Debug)]
pub struct Languages {
    map: Table,
}

impl Languages {
    /// The language the map gives an extension.
    pub closed spec fn language(&self, key: Seq<char>) -> Option<Seq<char>> {
        self.map.holds(key)
    }

    /// The built-in map.
    pub fn new() -> (out: Languages)
        ensures
            forall|k: Seq<char>| #[trigger] out.language(k) == lookup(defaults(), k),
    {
        let entries = vec![
            ("blk".to_owned(), "c".to_owned()),
            ("blkk".to_owned(), "c".to_owned()),
            ("pxc".to_owned(), "c".to_owned()),
            ("pyx".to_owned(), "python".to_owned()),
            ("pxd".to_owned(), "python".to_owned()),
            ("pxi".to_owned(), "python".to_owned()),
            ("iop".to_owned(), "d".to_owned()),
            ("tpl".to_owned(), "jinja2".to_owned()),
        ];
        let out = Languages { map: Table { entries } };
        assert(out.map@ =~= defaults());
        out
    }

    /// Add the map of the user or of the repository. A user entry wins.
    pub fn extend(&mut self, user: &Table)
        ensures
            forall|k: Seq<char>| #[trigger] final(self).language(k) == layered(old(self).language(k), user@, k),
    {
        write_all(&mut self.map, user);
    }

    /// The language of a path, or `None` when nothing claims it.
    ///
    /// `None` is not a failure. It asks the highlighter to decide, from the
    /// extension it knows or from the first line of the file.
    pub fn of(&self, path: &str) -> (out: Option<&str>)
        ensures
            match extension(path@) {
                Some(e) => match out {
                    Some(l) => self.language(lowercase(e)) == Some(l@),
                    None => self.language(lowercase(e)) is None,
                },
                None => out is None,
            },
    {
        let p = chars_of(path);
        let m = p.len();
        let name = match rfind_char_in(p.as_slice(), '/') {
            Some(i) => slice(p.as_slice(), i + 1, m),
            None => p,
        };
        let n = name.len();
        let ext = match rfind_char_in(name.as_slice(), '.') {
            Some(i) => slice(name.as_slice(), i + 1, n),
            None => return None,
        };
        let key = string_of(lower_chars(ext.as_slice()).as_slice());
        match self.map.get(key.as_str()) {
            Some(l) => Some(l.as_str()),
            None => None,
        }
    }
}

} // verus!
