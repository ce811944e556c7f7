//! What a commit is called, and who else reaches it, read from what git
//! answers.

use vstd::prelude::*;
use crate::git::commit::strings_view;
use crate::lang::{lookup, Table};
use crate::text::{
    chars_of, find_char, find_char_in, lemma_find_char, lines, lines_of, same_str, slice,
    string_of, trim, trim_chars,
};

verus! {

/// One line of `for-each-ref --format=%(objectname) %(*objectname)
/// %(refname:short)`, cut the way `splitn(3, ' ')` cuts it: the commit the
/// tag names (the peeled one for an annotated tag) and the name, when the
/// line has a name that is not empty.
pub open spec fn tag_line(line: Seq<char>) -> Option<(Seq<char>, Seq<char>)> {
    match find_char(line, ' ') {
        None => None,
        Some(i) => {
            let object = line.subrange(0, i);
            let rest = line.subrange(i + 1, line.len() as int);
            match find_char(rest, ' ') {
                None => None,
                Some(j) => {
                    let peeled = rest.subrange(0, j);
                    let name = trim(rest.subrange(j + 1, rest.len() as int));
                    if name.len() == 0 {
                        None
                    } else if peeled.len() == 0 {
                        Some((object, name))
                    } else {
                        Some((peeled, name))
                    }
                },
            }
        },
    }
}

/// The pairs of commit and tag name of the lines, in order.
pub open spec fn tag_pairs(ls: Seq<Seq<char>>) -> Seq<(Seq<char>, Seq<char>)>
    decreases ls.len(),
{
    if ls.len() == 0 {
        Seq::empty()
    } else {
        match tag_line(ls.last()) {
            Some(p) => tag_pairs(ls.drop_last()).push(p),
            None => tag_pairs(ls.drop_last()),
        }
    }
}

/// One line cut into its commit and its tag name.
fn read_tag_line(line: &[char]) -> (out: Option<(String, String)>)
    ensures
        match (out, tag_line(line@)) {
            (Some((c, n)), Some((sc, sn))) => c@ == sc && n@ == sn,
            (None, None) => true,
            _ => false,
        },
{
    let n = line.len();
    match find_char_in(line, ' ') {
        None => None,
        Some(i) => {
            let object = slice(line, 0, i);
            let rest = slice(line, i + 1, n);
            let m = rest.len();
            match find_char_in(rest.as_slice(), ' ') {
                None => None,
                Some(j) => {
                    let peeled = slice(rest.as_slice(), 0, j);
                    let name = trim_chars(slice(rest.as_slice(), j + 1, m).as_slice());
                    if name.len() == 0 {
                        None
                    } else if peeled.len() == 0 {
                        Some((string_of(object.as_slice()), string_of(name.as_slice())))
                    } else {
                        Some((string_of(peeled.as_slice()), string_of(name.as_slice())))
                    }
                },
            }
        },
    }
}

/// The commits the tags point at, and the name of the first tag on each.
///
/// `text` is what `git for-each-ref` answered for `refs/tags`, sorted by
/// name, so the first tag of a commit wins.
pub fn tags_by_commit(text: &str) -> (out: Table)
    ensures
        forall|k: Seq<char>| #[trigger] out.holds(k) == lookup(tag_pairs(lines(text@)), k),
{
    let v = chars_of(text);
    let ls = lines_of(v.as_slice());
    let ghost lv = lines(text@);
    let mut out = Table::new();
    let mut i: usize = 0;
    while i < ls.len()
        invariant
            i <= ls@.len(),
            ls@.len() == lv.len(),
            lv == lines(text@),
            forall|k: int| 0 <= k < ls@.len() ==> #[trigger] ls@[k]@ == lv[k],
            forall|k: Seq<char>| #[trigger] out.holds(k) == lookup(tag_pairs(lv.subrange(0, i as int)), k),
        decreases ls@.len() - i,
    {
        let ghost sub = lv.subrange(0, i + 1);
        assert(sub.drop_last() == lv.subrange(0, i as int));
        assert(sub.last() == ls@[i as int]@);
        let ghost before = tag_pairs(lv.subrange(0, i as int));
        match read_tag_line(ls[i].as_slice()) {
            Some((commit, name)) => {
                let ghost p = (commit@, name@);
                let held = out.get(commit.as_str()).is_some();
                proof {
                    assert forall|k: Seq<char>| lookup(before.push(p), k) == match lookup(before, k) {
                        Some(v) => Some(v),
                        None => if p.0 == k {
                            Some(p.1)
                        } else {
                            None
                        },
                    } by {
                        lemma_lookup_push(before, p, k);
                    }
                }
                if !held {
                    out.insert(commit, name);
                }
            },
            None => {},
        }
        i = i + 1;
    }
    assert(lv.subrange(0, lv.len() as int) == lv);
    out
}

proof fn lemma_lookup_push(s: Seq<(Seq<char>, Seq<char>)>, p: (Seq<char>, Seq<char>), key: Seq<char>)
    ensures
        lookup(s.push(p), key) == match lookup(s, key) {
            Some(v) => Some(v),
            None => if p.0 == key {
                Some(p.1)
            } else {
                None
            },
        },
    decreases s.len(),
{
    let t = s.push(p);
    if s.len() == 0 {
        assert(t[0] == p);
        assert(t.drop_first().len() == 0);
        assert(lookup(t.drop_first(), key) is None);
    } else {
        assert(t[0] == s[0]);
        assert(t.drop_first() =~= s.drop_first().push(p));
        lemma_lookup_push(s.drop_first(), p, key);
    }
}

/// The names of the lines, trimmed, leaving out the empty ones.
pub open spec fn names_in(ls: Seq<Seq<char>>) -> Seq<Seq<char>>
    decreases ls.len(),
{
    if ls.len() == 0 {
        Seq::empty()
    } else if trim(ls.last()).len() == 0 {
        names_in(ls.drop_last())
    } else {
        names_in(ls.drop_last()).push(trim(ls.last()))
    }
}

/// Every remote-tracking ref that `git for-each-ref --contains` answered.
pub fn remotes_in(text: &str) -> (out: Vec<String>)
    ensures
        strings_view(out@) == names_in(lines(text@)),
{
    let v = chars_of(text);
    let ls = lines_of(v.as_slice());
    let ghost lv = lines(text@);
    let mut out: Vec<String> = Vec::new();
    let mut i: usize = 0;
    while i < ls.len()
        invariant
            i <= ls@.len(),
            ls@.len() == lv.len(),
            lv == lines(text@),
            forall|k: int| 0 <= k < ls@.len() ==> #[trigger] ls@[k]@ == lv[k],
            strings_view(out@) == names_in(lv.subrange(0, i as int)),
        decreases ls@.len() - i,
    {
        let ghost sub = lv.subrange(0, i + 1);
        assert(sub.drop_last() == lv.subrange(0, i as int));
        assert(sub.last() == ls@[i as int]@);
        let name = trim_chars(ls[i].as_slice());
        if name.len() > 0 {
            let ghost before = strings_view(out@);
            out.push(string_of(name.as_slice()));
            assert(strings_view(out@) =~= before.push(name@));
        }
        i = i + 1;
    }
    assert(lv.subrange(0, lv.len() as int) == lv);
    out
}

/// The first name that is not held by the head.
pub open spec fn first_not_held(names: Seq<Seq<char>>, on_head: Seq<Seq<char>>) -> Option<Seq<char>>
    decreases names.len(),
{
    if names.len() == 0 {
        None
    } else if !on_head.contains(names[0]) {
        Some(names[0])
    } else {
        first_not_held(names.drop_first(), on_head)
    }
}

/// The remote branch a commit sits on, when one holds it and does not hold
/// the head of the series.
///
/// `names` are the remote branches that hold the commit, `on_head` those
/// that hold the head. A ref that reaches the head reaches the whole series,
/// so it says nothing about where the series starts: a branch pushed for
/// review is exactly that ref.
pub fn is_on_a_remote(names: &Vec<String>, on_head: &Vec<String>) -> (out: Option<String>)
    ensures
        match out {
            Some(n) => first_not_held(strings_view(names@), strings_view(on_head@)) == Some(n@),
            None => first_not_held(strings_view(names@), strings_view(on_head@)) is None,
        },
{
    let ghost nv = strings_view(names@);
    let ghost hv = strings_view(on_head@);
    let mut i: usize = 0;
    assert(nv.subrange(0, nv.len() as int) == nv);
    while i < names.len()
        invariant
            i <= names@.len(),
            nv == strings_view(names@),
            hv == strings_view(on_head@),
            first_not_held(nv, hv) == first_not_held(nv.subrange(i as int, nv.len() as int), hv),
        decreases names@.len() - i,
    {
        let ghost rest = nv.subrange(i as int, nv.len() as int);
        assert(rest[0] == names@[i as int]@);
        assert(rest.drop_first() == nv.subrange(i + 1, nv.len() as int));
        let mut held = false;
        let mut j: usize = 0;
        while j < on_head.len()
            invariant
                j <= on_head@.len(),
                hv == strings_view(on_head@),
                i < names@.len(),
                held == exists|k: int| 0 <= k < j && hv[k] == names@[i as int]@,
            decreases on_head@.len() - j,
        {
            if same_str(on_head[j].as_str(), names[i].as_str()) {
                held = true;
            }
            assert(hv[j as int] == on_head@[j as int]@);
            j = j + 1;
        }
        if !held {
            assert forall|k: int| 0 <= k < hv.len() implies hv[k] != names@[i as int]@ by {}
            return Some(crate::text::copy_string(&names[i]));
        }
        proof {
            let k = choose|k: int| 0 <= k < hv.len() && hv[k] == names@[i as int]@;
            assert(hv[k] == rest[0]);
            assert(hv.contains(rest[0]));
        }
        i = i + 1;
    }
    None
}

/// What the commit is called, for a person to read: what `git name-rev`
/// answered, trimmed, or the first twelve characters of the hash when it
/// answered nothing or `undefined`.
pub fn name_or_short(named: &str, hash: &str) -> (out: String)
    ensures
        out@ == if trim(named@).len() == 0 || trim(named@) == "undefined"@ {
            crate::series::walk::short(hash@)
        } else {
            trim(named@)
        },
{
    let t = trim_chars(chars_of(named).as_slice());
    let undefined = chars_of("undefined");
    if t.len() == 0 || crate::text::same(t.as_slice(), undefined.as_slice()) {
        let h = chars_of(hash);
        if h.len() <= 12 {
            string_of(h.as_slice())
        } else {
            string_of(slice(h.as_slice(), 0, 12).as_slice())
        }
    } else {
        string_of(t.as_slice())
    }
}

} // verus!
