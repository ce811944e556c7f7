//! Cutting a version: the texts the release chores write.
//!
//! The chores read and write files and run git; what they write is decided
//! here. The pending changelog entries are one file per entry, in the group
//! it belongs to, so a shared section never conflicts on a rebase.

use vstd::prelude::*;
use crate::patchset::{text_before, text_lt};
use crate::text::{
    all_digits, chars_of, copy_string, extend, extend_str, find, find_chars, has_prefix_str,
    lines, lines_of, split, split_chars, starts_with, string_of, trim, trim_chars, trim_end,
    trim_end_chars, trim_start_char, trim_start_matching, digits_only, slice,
};

verus! {

/// Whether a version reads like 0.1.0: three runs of digits, split by dots.
pub open spec fn is_version(v: Seq<char>) -> bool {
    let parts = split(v, '.');
    parts.len() == 3 && forall|i: int| 0 <= i < 3 ==> (#[trigger] parts[i]).len() > 0 && all_digits(parts[i])
}

/// The message that refuses a version.
pub open spec fn not_a_version(v: Seq<char>) -> Seq<char> {
    v + " is not a version like 0.1.0"@
}

/// A version is three runs of digits, split by dots.
pub fn check_version(version: &str) -> (out: Result<(), String>)
    ensures
        out is Ok <==> is_version(version@),
        out matches Err(e) ==> e@ == not_a_version(version@),
{
    let parts = split_chars(chars_of(version).as_slice(), '.');
    let mut ok = parts.len() == 3;
    if ok {
        let mut i: usize = 0;
        while i < 3
            invariant
                0 <= i <= 3,
                parts@.len() == 3,
                parts@.len() == split(version@, '.').len(),
                forall|k: int| 0 <= k < parts@.len() ==> #[trigger] parts@[k]@ == split(version@, '.')[k],
                ok == forall|k: int| 0 <= k < i ==> (#[trigger] split(version@, '.')[k]).len() > 0 && all_digits(split(version@, '.')[k]),
            decreases 3 - i,
        {
            let p = &parts[i];
            let good = p.len() > 0 && digits_only(p.as_slice());
            assert(p@ == split(version@, '.')[i as int]);
            ok = ok && good;
            i = i + 1;
        }
    }
    if ok {
        Ok(())
    } else {
        let mut m = chars_of(version);
        extend_str(&mut m, " is not a version like 0.1.0");
        Err(string_of(m.as_slice()))
    }
}

/// The line that names the version in the workspace manifest.
pub open spec fn version_line(version: Seq<char>) -> Seq<char> {
    "version = \""@ + version + "\""@
}

/// The lines of the manifest, the first that names a version replaced.
pub open spec fn bumped_lines(ls: Seq<Seq<char>>, version: Seq<char>) -> (Seq<Seq<char>>, bool)
    decreases ls.len(),
{
    if ls.len() == 0 {
        (ls, false)
    } else {
        let (r, done) = bumped_lines(ls.drop_last(), version);
        if !done && starts_with(ls.last(), "version = "@) {
            (r.push(version_line(version)), true)
        } else {
            (r.push(ls.last()), done)
        }
    }
}

/// The lines, each ended by a newline.
pub open spec fn with_newlines(ls: Seq<Seq<char>>) -> Seq<char>
    decreases ls.len(),
{
    if ls.len() == 0 {
        Seq::empty()
    } else {
        with_newlines(ls.drop_last()) + ls.last() + seq!['\n']
    }
}

/// The manifest with its version line naming the new version, or nothing
/// when it has no version line.
pub open spec fn spec_bump(text: Seq<char>, version: Seq<char>) -> Option<Seq<char>> {
    let (ls, done) = bumped_lines(lines(text), version);
    if done {
        Some(with_newlines(ls))
    } else {
        None
    }
}

/// The version lives in the workspace manifest, alone: the first line that
/// starts with `version = ` is the one.
pub fn bump(text: &str, version: &str) -> (out: Option<String>)
    ensures
        match out {
            Some(t) => spec_bump(text@, version@) == Some(t@),
            None => spec_bump(text@, version@) is None,
        },
{
    let ls = lines_of(chars_of(text).as_slice());
    let ghost lv = lines(text@);
    let mut out: Vec<char> = Vec::new();
    let mut done = false;
    let mut i: usize = 0;
    while i < ls.len()
        invariant
            0 <= i <= ls@.len(),
            ls@.len() == lv.len(),
            forall|k: int| 0 <= k < ls@.len() ==> #[trigger] ls@[k]@ == lv[k],
            bumped_lines(lv.take(i as int), version@).1 == done,
            out@ == with_newlines(bumped_lines(lv.take(i as int), version@).0),
        decreases ls@.len() - i,
    {
        let line = &ls[i];
        assert(lv.take(i as int + 1).drop_last() == lv.take(i as int));
        assert(lv.take(i as int + 1).last() == line@);
        let ghost prev = bumped_lines(lv.take(i as int), version@).0;
        if !done && has_prefix_str(line.as_slice(), "version = ") {
            extend_str(&mut out, "version = \"");
            extend_str(&mut out, version);
            extend_str(&mut out, "\"");
            out.push('\n');
            done = true;
            assert(prev.push(version_line(version@)).drop_last() == prev);
            assert(out@ =~= with_newlines(prev.push(version_line(version@))));
        } else {
            extend(&mut out, line.as_slice());
            out.push('\n');
            assert(prev.push(line@).drop_last() == prev);
            assert(out@ =~= with_newlines(prev.push(line@)));
        }
        i = i + 1;
    }
    assert(lv.take(ls@.len() as int) == lv);
    if done {
        Some(string_of(out.as_slice()))
    } else {
        None
    }
}

/// The line under which the release writes new versions.
pub open spec fn marker() -> Seq<char> {
    "<!-- The release script writes new versions under this line. -->"@
}

/// The changelog with the section of the new version under the marker, or
/// nothing when it has no marker.
pub open spec fn spec_with_section(text: Seq<char>, version: Seq<char>, entries: Seq<char>) -> Option<Seq<char>> {
    match find(text, marker()) {
        Some(at) => {
            let cut = at + marker().len();
            Some(
                text.subrange(0, cut) + "\n\n## ["@ + version + "]\n\n"@ + trim_end(entries) + seq!['\n']
                    + trim_start_char(text.subrange(cut, text.len() as int), '\n'),
            )
        },
        None => None,
    }
}

/// Put the section of a version under the marker of the changelog.
pub fn with_section(text: &str, version: &str, entries: &str) -> (out: Option<String>)
    ensures
        match out {
            Some(t) => spec_with_section(text@, version@, entries@) == Some(t@),
            None => spec_with_section(text@, version@, entries@) is None,
        },
{
    let t = chars_of(text);
    let m = chars_of("<!-- The release script writes new versions under this line. -->");
    let ts = t.as_slice();
    let ms = m.as_slice();
    let at = match find_chars(ts, ms) {
        Some(at) => at,
        None => return None,
    };
    let n = ts.len();
    assert(at + ms@.len() <= n);
    let cut = at + ms.len();
    let mut out = slice(t.as_slice(), 0, cut);
    extend_str(&mut out, "\n\n## [");
    extend_str(&mut out, version);
    extend_str(&mut out, "]\n\n");
    let e = trim_end_chars(chars_of(entries).as_slice());
    extend(&mut out, e.as_slice());
    out.push('\n');
    let rest = slice(t.as_slice(), cut, t.len());
    let kept = trim_start_matching(rest.as_slice(), '\n');
    extend(&mut out, kept.as_slice());
    Some(string_of(out.as_slice()))
}

/// An entry put into a list sorted by name, after those it does not come
/// before.
pub open spec fn insert_by_name(s: Seq<(Seq<char>, Seq<char>)>, e: (Seq<char>, Seq<char>)) -> Seq<(Seq<char>, Seq<char>)>
    decreases s.len(),
{
    if s.len() == 0 {
        seq![e]
    } else if text_lt(e.0, s[0].0) {
        seq![e] + s
    } else {
        seq![s[0]] + insert_by_name(s.drop_first(), e)
    }
}

/// The entries sorted by the names of their files, equal names in the order
/// they came.
pub open spec fn sorted_by_name(s: Seq<(Seq<char>, Seq<char>)>) -> Seq<(Seq<char>, Seq<char>)>
    decreases s.len(),
{
    if s.len() == 0 {
        s
    } else {
        insert_by_name(sorted_by_name(s.drop_last()), s.last())
    }
}

proof fn lemma_insert_at(s: Seq<(Seq<char>, Seq<char>)>, e: (Seq<char>, Seq<char>), k: int)
    requires
        0 <= k <= s.len(),
        forall|j: int| 0 <= j < k ==> !text_lt(e.0, (#[trigger] s[j]).0),
        k < s.len() ==> text_lt(e.0, s[k].0),
    ensures
        insert_by_name(s, e) == s.insert(k, e),
    decreases s.len(),
{
    if s.len() == 0 {
        assert(s.insert(k, e) =~= seq![e]);
    } else if k == 0 {
        assert(s.insert(0, e) =~= seq![e] + s);
    } else {
        let t = s.drop_first();
        assert forall|j: int| 0 <= j < k - 1 implies !text_lt(e.0, (#[trigger] t[j]).0) by {
            assert(t[j] == s[j + 1]);
        }
        if k < s.len() {
            assert(t[k - 1] == s[k]);
        }
        lemma_insert_at(t, e, k - 1);
        assert(seq![s[0]] + t.insert(k - 1, e) =~= s.insert(k, e));
    }
}

/// The views of the entries.
pub open spec fn named_view(v: Seq<(String, String)>) -> Seq<(Seq<char>, Seq<char>)> {
    v.map_values(|p: (String, String)| (p.0@, p.1@))
}

/// The entries of a group sorted by the names of their files.
pub fn sort_by_name(entries: Vec<(String, String)>) -> (out: Vec<(String, String)>)
    ensures
        named_view(out@) == sorted_by_name(named_view(entries@)),
{
    let ghost ev = named_view(entries@);
    let mut out: Vec<(String, String)> = Vec::new();
    let mut i: usize = 0;
    while i < entries.len()
        invariant
            0 <= i <= entries@.len(),
            ev == named_view(entries@),
            named_view(out@) == sorted_by_name(ev.take(i as int)),
        decreases entries@.len() - i,
    {
        let (name, body) = (copy_string(&entries[i].0), copy_string(&entries[i].1));
        let ghost e = ev[i as int];
        assert(e == (name@, body@));
        assert(ev.take(i as int + 1).drop_last() == ev.take(i as int));
        assert(ev.take(i as int + 1).last() == e);
        let ghost have = named_view(out@);
        let mut k: usize = 0;
        while k < out.len() && !text_before(name.as_str(), out[k].0.as_str())
            invariant
                0 <= k <= out@.len(),
                have == named_view(out@),
                e.0 == name@,
                forall|j: int| 0 <= j < k ==> !text_lt(name@, (#[trigger] have[j]).0),
            decreases out@.len() - k,
        {
            assert(have[k as int] == (out@[k as int].0@, out@[k as int].1@));
            k = k + 1;
        }
        proof {
            if k < out@.len() {
                assert(have[k as int] == (out@[k as int].0@, out@[k as int].1@));
            }
            lemma_insert_at(have, e, k as int);
        }
        out.insert(k, (name, body));
        assert(named_view(out@) =~= have.insert(k as int, e));
        i = i + 1;
    }
    assert(ev.take(entries@.len() as int) == ev);
    out
}

/// The Markdown of the entries of one group, under its title.
pub open spec fn bodies_text(es: Seq<(Seq<char>, Seq<char>)>) -> Seq<char>
    decreases es.len(),
{
    if es.len() == 0 {
        Seq::empty()
    } else {
        bodies_text(es.drop_last()) + trim_end(es.last().1) + seq!['\n']
    }
}

/// The section of one group: nothing when it has no entry.
pub open spec fn group_text(title: Seq<char>, es: Seq<(Seq<char>, Seq<char>)>) -> Seq<char> {
    if es.len() == 0 {
        Seq::empty()
    } else {
        "### "@ + title + "\n\n"@ + bodies_text(sorted_by_name(es)) + seq!['\n']
    }
}

/// The Markdown of one group of pending entries, sorted by the names of
/// their files; nothing when the group has no entry.
pub fn group(title: &str, entries: Vec<(String, String)>) -> (out: String)
    ensures
        out@ == group_text(title@, named_view(entries@)),
{
    if entries.len() == 0 {
        return string_of(Vec::<char>::new().as_slice());
    }
    let sorted = sort_by_name(entries);
    let ghost sv = named_view(sorted@);
    let mut out: Vec<char> = Vec::new();
    extend_str(&mut out, "### ");
    extend_str(&mut out, title);
    extend_str(&mut out, "\n\n");
    let ghost head = out@;
    let mut i: usize = 0;
    while i < sorted.len()
        invariant
            0 <= i <= sorted@.len(),
            sv == named_view(sorted@),
            out@ == head + bodies_text(sv.take(i as int)),
        decreases sorted@.len() - i,
    {
        assert(sv[i as int] == (sorted@[i as int].0@, sorted@[i as int].1@));
        assert(sv.take(i as int + 1).drop_last() == sv.take(i as int));
        assert(sv.take(i as int + 1).last() == sv[i as int]);
        let body = trim_end_chars(chars_of(sorted[i].1.as_str()).as_slice());
        extend(&mut out, body.as_slice());
        out.push('\n');
        assert(out@ =~= head + bodies_text(sv.take(i as int + 1)));
        i = i + 1;
    }
    assert(sv.take(sorted@.len() as int) == sv);
    out.push('\n');
    string_of(out.as_slice())
}

/// The groups of the changelog, each as its directory and its title, in the
/// order they are printed.
pub open spec fn spec_groups() -> Seq<(Seq<char>, Seq<char>)> {
    seq![("added"@, "Added"@), ("changed"@, "Changed"@), ("fixed"@, "Fixed"@), ("removed"@, "Removed"@)]
}

/// The groups of the changelog, in the order they are printed.
pub fn groups() -> (out: Vec<(String, String)>)
    ensures
        named_view(out@) == spec_groups(),
{
    let mut out: Vec<(String, String)> = Vec::new();
    out.push(("added".to_owned(), "Added".to_owned()));
    out.push(("changed".to_owned(), "Changed".to_owned()));
    out.push(("fixed".to_owned(), "Fixed".to_owned()));
    out.push(("removed".to_owned(), "Removed".to_owned()));
    assert(named_view(out@) =~= spec_groups());
    out
}

/// What the changelog says when nothing is waiting for a release.
pub open spec fn nothing_waiting() -> Seq<char> {
    "Nothing is waiting for a release.\n"@
}

/// The groups, one after the other, or the line that says nothing waits.
pub fn collected_text(groups: &Vec<String>) -> (out: String)
    ensures
        out@ == if groups@.map_values(|g: String| g@).fold_left(Seq::<char>::empty(), |a: Seq<char>, g: Seq<char>| a + g).len() == 0 {
            nothing_waiting()
        } else {
            groups@.map_values(|g: String| g@).fold_left(Seq::<char>::empty(), |a: Seq<char>, g: Seq<char>| a + g)
        },
{
    let ghost gv = groups@.map_values(|g: String| g@);
    let mut out: Vec<char> = Vec::new();
    let mut i: usize = 0;
    while i < groups.len()
        invariant
            0 <= i <= groups@.len(),
            gv == groups@.map_values(|g: String| g@),
            out@ == gv.take(i as int).fold_left(Seq::<char>::empty(), |a: Seq<char>, g: Seq<char>| a + g),
        decreases groups@.len() - i,
    {
        assert(gv.take(i as int + 1).drop_last() == gv.take(i as int));
        assert(gv[i as int] == groups@[i as int]@);
        extend(&mut out, chars_of(groups[i].as_str()).as_slice());
        proof {
            let f = |a: Seq<char>, g: Seq<char>| a + g;
            assert(gv.take(i as int + 1).fold_left(Seq::<char>::empty(), f)
                == f(gv.take(i as int + 1).drop_last().fold_left(Seq::<char>::empty(), f), gv.take(i as int + 1).last()));
        }
        i = i + 1;
    }
    assert(gv.take(groups@.len() as int) == gv);
    if out.len() == 0 {
        string_of(chars_of("Nothing is waiting for a release.\n").as_slice())
    } else {
        string_of(out.as_slice())
    }
}

/// The branch to push, from what `git branch --show-current` printed:
/// `HEAD` when git names none.
pub open spec fn spec_branch_to_push(out: Seq<char>) -> Seq<char> {
    if trim(out).len() == 0 { "HEAD"@ } else { trim(out) }
}

/// The branch to push, for the line that says how to push.
pub fn branch_to_push(out: &str) -> (name: String)
    ensures
        name@ == spec_branch_to_push(out@),
{
    let t = trim_chars(chars_of(out).as_slice());
    if t.len() == 0 {
        string_of(chars_of("HEAD").as_slice())
    } else {
        string_of(t.as_slice())
    }
}

/// The name of the tag of a version.
pub open spec fn tag_name(version: Seq<char>) -> Seq<char> {
    "v"@ + version
}

/// The arguments of `git tag` that cut the annotated tag of a version: its
/// subject names the tool and the version, and its body is the notes of the
/// version. An annotated tag is what `git push --follow-tags` pushes.
pub open spec fn spec_tag_args(version: Seq<char>, entries: Seq<char>) -> Seq<Seq<char>> {
    seq!["tag"@, "-a"@, "-m"@, "qreview "@ + tag_name(version), "-m"@, trim(entries), tag_name(version)]
}

/// The arguments of `git tag` for the release of a version.
pub fn tag_args(version: &str, entries: &str) -> (out: Vec<String>)
    ensures
        out@.map_values(|s: String| s@) == spec_tag_args(version@, entries@),
{
    let mut name = chars_of("v");
    extend_str(&mut name, version);
    let mut subject = chars_of("qreview ");
    extend(&mut subject, name.as_slice());
    let mut out: Vec<String> = Vec::new();
    out.push(string_of(chars_of("tag").as_slice()));
    out.push(string_of(chars_of("-a").as_slice()));
    out.push(string_of(chars_of("-m").as_slice()));
    out.push(string_of(subject.as_slice()));
    out.push(string_of(chars_of("-m").as_slice()));
    out.push(string_of(trim_chars(chars_of(entries).as_slice()).as_slice()));
    out.push(string_of(name.as_slice()));
    assert(out@.map_values(|s: String| s@) =~= spec_tag_args(version@, entries@));
    out
}

/// The message of the release commit.
pub fn commit_message(version: &str) -> (out: String)
    ensures
        out@ == "chore(release): "@ + tag_name(version@),
{
    let mut m = chars_of("chore(release): v");
    extend_str(&mut m, version);
    proof {
        reveal_strlit("chore(release): v");
        reveal_strlit("chore(release): ");
        reveal_strlit("v");
    }
    assert(m@ =~= "chore(release): "@ + tag_name(version@));
    string_of(m.as_slice())
}

/// The line that says how to push: the branch and the tag by name, since
/// `--follow-tags` sends nothing when the branch is up to date.
pub fn push_line(branch: &str, version: &str) -> (out: String)
    ensures
        out@ == "    git push origin "@ + branch@ + " "@ + tag_name(version@),
{
    let mut m = chars_of("    git push origin ");
    extend_str(&mut m, branch);
    extend_str(&mut m, " ");
    extend_str(&mut m, "v");
    extend_str(&mut m, version);
    assert(m@ =~= "    git push origin "@ + branch@ + " "@ + tag_name(version@));
    string_of(m.as_slice())
}

/// The texts of a run of strings.
pub open spec fn texts_of(v: Seq<String>) -> Seq<Seq<char>> {
    v.map_values(|s: String| s@)
}

/// The names of the files of the entries.
pub open spec fn file_names(es: Seq<(Seq<char>, Seq<char>)>) -> Seq<Seq<char>> {
    es.map_values(|e: (Seq<char>, Seq<char>)| e.0)
}

/// The pending entries, collected.
pub struct Collected {
    /// The Markdown of the entries, ready to go under a version heading.
    pub text: String,
    /// The files that were read, so a release can delete them.
    pub files: Vec<String>,
}

/// The text of the groups, one after the other.
pub open spec fn groups_text(groups: Seq<(Seq<char>, Seq<(Seq<char>, Seq<char>)>)>) -> Seq<char>
    decreases groups.len(),
{
    if groups.len() == 0 {
        Seq::empty()
    } else {
        groups_text(groups.drop_last()) + group_text(groups.last().0, groups.last().1)
    }
}

/// The files of the groups, each group's sorted by name, one group after the
/// other.
pub open spec fn groups_files(groups: Seq<(Seq<char>, Seq<(Seq<char>, Seq<char>)>)>) -> Seq<Seq<char>>
    decreases groups.len(),
{
    if groups.len() == 0 {
        Seq::empty()
    } else {
        groups_files(groups.drop_last()) + file_names(sorted_by_name(groups.last().1))
    }
}

/// The views of the groups as read.
pub open spec fn read_view(v: Seq<(String, Vec<(String, String)>)>) -> Seq<(Seq<char>, Seq<(Seq<char>, Seq<char>)>)> {
    v.map_values(|g: (String, Vec<(String, String)>)| (g.0@, named_view(g.1@)))
}

/// Collect the pending entries: each group, in the order given, under its
/// title with its entries sorted by file, and the files read; the line
/// that says nothing waits when no group has an entry.
pub fn collect(groups: Vec<(String, Vec<(String, String)>)>) -> (out: Collected)
    ensures
        out.text@ == (if groups_text(read_view(groups@)).len() == 0 {
            nothing_waiting()
        } else {
            groups_text(read_view(groups@))
        }),
        texts_of(out.files@) == groups_files(read_view(groups@)),
{
    let ghost gv = read_view(groups@);
    let mut text: Vec<char> = Vec::new();
    let mut files: Vec<String> = Vec::new();
    let mut i: usize = 0;
    while i < groups.len()
        invariant
            0 <= i <= groups@.len(),
            gv == read_view(groups@),
            text@ == groups_text(gv.take(i as int)),
            texts_of(files@) == groups_files(gv.take(i as int)),
        decreases groups@.len() - i,
    {
        assert(gv.take(i as int + 1).drop_last() == gv.take(i as int));
        assert(gv.take(i as int + 1).last() == gv[i as int]);
        assert(gv[i as int] == (groups@[i as int].0@, named_view(groups@[i as int].1@)));
        let entries = copy_entries(&groups[i].1);
        let sorted = sort_by_name(copy_entries(&groups[i].1));
        let g = group(groups[i].0.as_str(), entries);
        extend(&mut text, chars_of(g.as_str()).as_slice());
        let ghost before = files@;
        let mut k: usize = 0;
        while k < sorted.len()
            invariant
                0 <= k <= sorted@.len(),
                texts_of(files@)
                    == texts_of(before) + file_names(named_view(sorted@)).take(k as int),
            decreases sorted@.len() - k,
        {
            let ghost prev = files@;
            proof {
                assert(texts_of(prev).len() == prev.len());
                assert(file_names(named_view(sorted@)).len() == sorted@.len());
            }
            files.push(copy_string(&sorted[k].0));
            proof {
                let want = texts_of(before) + file_names(named_view(sorted@)).take(k as int + 1);
                assert(named_view(sorted@)[k as int] == (sorted@[k as int].0@, sorted@[k as int].1@));
                assert forall|j: int| 0 <= j < files@.len() implies #[trigger] texts_of(files@)[j] == want[j] by {
                    if j < prev.len() {
                        assert(files@[j] == prev[j]);
                        assert(texts_of(prev)[j] == prev[j]@);
                    }
                }
                assert(texts_of(files@) =~= want);
            }
            k = k + 1;
        }
        assert(file_names(named_view(sorted@)).take(sorted@.len() as int)
            == file_names(named_view(sorted@)));
        i = i + 1;
    }
    assert(gv.take(groups@.len() as int) == gv);
    if text.len() == 0 {
        Collected { text: string_of(chars_of("Nothing is waiting for a release.\n").as_slice()), files }
    } else {
        Collected { text: string_of(text.as_slice()), files }
    }
}

/// A copy of the entries of a group.
fn copy_entries(v: &Vec<(String, String)>) -> (out: Vec<(String, String)>)
    ensures
        named_view(out@) == named_view(v@),
{
    let mut out: Vec<(String, String)> = Vec::new();
    let mut i: usize = 0;
    while i < v.len()
        invariant
            0 <= i <= v@.len(),
            named_view(out@) == named_view(v@).take(i as int),
        decreases v@.len() - i,
    {
        let ghost prev = out@;
        proof {
            assert(named_view(prev).len() == prev.len());
        }
        out.push((copy_string(&v[i].0), copy_string(&v[i].1)));
        proof {
            let want = named_view(v@).take(i as int + 1);
            assert forall|j: int| 0 <= j < out@.len() implies #[trigger] named_view(out@)[j] == want[j] by {
                if j < prev.len() {
                    assert(out@[j] == prev[j]);
                    assert(named_view(prev)[j] == (prev[j].0@, prev[j].1@));
                }
            }
            assert(named_view(out@) =~= want);
        }
        i = i + 1;
    }
    assert(named_view(v@).take(v@.len() as int) == named_view(v@));
    out
}

} // verus!
