//! What a commit is, as the review needs it.

use vstd::prelude::*;
use crate::text::{
    after, all_digits, chars_of, digits_value, extend, extend_str, is_digit, lemma_split_nonempty,
    lines, lines_of, runs_view, slice, split, split_chars, starts_with, string_of, strip_prefix,
    trim, trim_chars, trim_start, trim_start_chars, words, words_of,
};

verus! {

/// The separator between two commits in a `git log` answer.
///
/// A record separator, because a commit message can hold anything else.
pub const RECORD: char = '\u{1e}';

/// The separator between two fields of one commit.
pub const FIELD: char = '\u{0}';

/// One commit, with the parts a review reads.
#[derive(Clone, Debug, PartialEq, Eq)]
pub struct CommitInfo {
    pub hash: String,
    pub parents: Vec<String>,
    pub author: String,
    pub email: String,
    /// The author date, RFC 3339 in UTC, formatted by this tool.
    pub date: String,
    pub subject: String,
    pub message: String,
}

/// A commit, with its text as characters.
pub struct CommitView {
    pub hash: Seq<char>,
    pub parents: Seq<Seq<char>>,
    pub author: Seq<char>,
    pub email: Seq<char>,
    pub date: Seq<char>,
    pub subject: Seq<char>,
    pub message: Seq<char>,
}

/// The view of a sequence of strings.
pub open spec fn strings_view(v: Seq<String>) -> Seq<Seq<char>> {
    v.map_values(|s: String| s@)
}

impl View for CommitInfo {
    type V = CommitView;

    open spec fn view(&self) -> CommitView {
        CommitView {
            hash: self.hash@,
            parents: strings_view(self.parents@),
            author: self.author@,
            email: self.email@,
            date: self.date@,
            subject: self.subject@,
            message: self.message@,
        }
    }
}

/// The value after the last line of the lines that begins with `p`.
pub open spec fn last_with_prefix(ls: Seq<Seq<char>>, p: Seq<char>) -> Option<Seq<char>>
    decreases ls.len(),
{
    if ls.len() == 0 {
        None
    } else if starts_with(ls.last(), p) {
        Some(after(ls.last(), p))
    } else {
        last_with_prefix(ls.drop_last(), p)
    }
}

/// The `Change-Id` trailer of a message: the last one, trimmed, when it is
/// not empty.
pub open spec fn spec_change_id(message: Seq<char>) -> Option<Seq<char>> {
    match last_with_prefix(lines(message), "Change-Id:"@) {
        Some(v) => if trim(v).len() > 0 {
            Some(trim(v))
        } else {
            None
        },
        None => None,
    }
}

/// The key a review of the commit is stored under.
pub open spec fn spec_key(c: CommitView) -> Seq<char> {
    match spec_change_id(c.message) {
        Some(id) => id,
        None => "sha-"@ + c.hash,
    }
}

/// The view of an optional string.
pub open spec fn opt_str(o: Option<String>) -> Option<Seq<char>> {
    match o {
        Some(s) => Some(s@),
        None => None,
    }
}

impl CommitInfo {
    /// A merge has more than one parent. Gerrit reviews one, and so does this
    /// tool, but the walk must never cross it in silence.
    pub fn is_merge(&self) -> (b: bool)
        ensures
            b == (self.parents@.len() > 1),
    {
        self.parents.len() > 1
    }

    /// The `Change-Id` trailer, when the commit carries one.
    ///
    /// It survives an amend and a rebase, which is what a comment must
    /// survive. Only the last one counts: a rebase can leave two behind.
    pub fn change_id(&self) -> (id: Option<String>)
        ensures
            opt_str(id) == spec_change_id(self.message@),
    {
        let message = chars_of(self.message.as_str());
        let ls = lines_of(message.as_slice());
        let ghost lv = lines(self.message@);
        let mut i = ls.len();
        assert(lv.subrange(0, lv.len() as int) == lv);
        while i > 0
            invariant
                i <= ls@.len(),
                lv == lines(self.message@),
                ls@.len() == lv.len(),
                forall|k: int| 0 <= k < ls@.len() ==> #[trigger] ls@[k]@ == lv[k],
                last_with_prefix(lv, "Change-Id:"@) == last_with_prefix(
                    lv.subrange(0, i as int),
                    "Change-Id:"@,
                ),
            decreases i,
        {
            let ghost pre = lv.subrange(0, i as int);
            assert(pre.last() == lv[i - 1]);
            assert(pre.drop_last() == lv.subrange(0, i - 1));
            match strip_prefix(ls[i - 1].as_slice(), "Change-Id:") {
                Some(rest) => {
                    let id = trim_chars(rest.as_slice());
                    if id.len() > 0 {
                        return Some(string_of(id.as_slice()));
                    }
                    return None;
                },
                None => {},
            }
            i = i - 1;
        }
        None
    }

    /// The key a review is stored under.
    ///
    /// The `Change-Id` when there is one. Otherwise the hash, which does not
    /// survive an amend, and the interface says so.
    pub fn key(&self) -> (k: String)
        ensures
            k@ == spec_key(self@),
    {
        match self.change_id() {
            Some(id) => id,
            None => {
                let mut out = chars_of("sha-");
                extend_str(&mut out, self.hash.as_str());
                string_of(out.as_slice())
            },
        }
    }
}

/// True when the character is an ASCII hexadecimal digit.
pub open spec fn is_hex(c: char) -> bool {
    ('0' <= c && c <= '9') || ('a' <= c && c <= 'f') || ('A' <= c && c <= 'F')
}

/// Whether a revision is a full object name: forty hexadecimal digits.
pub open spec fn spec_is_object_name(rev: Seq<char>) -> bool {
    rev.len() == 40 && forall|i: int| 0 <= i < rev.len() ==> is_hex(#[trigger] rev[i])
}

/// Whether a revision names an object outright, rather than reaching one.
///
/// A full hash names content, and content never moves. `HEAD`, a branch, a
/// tag or `rev^` all reach a commit that can be another one a moment later.
pub fn is_object_name(rev: &str) -> (b: bool)
    ensures
        b == spec_is_object_name(rev@),
{
    let v = chars_of(rev);
    if v.len() != 40 {
        return false;
    }
    let mut i: usize = 0;
    while i < v.len()
        invariant
            0 <= i <= v@.len(),
            v@ == rev@,
            forall|j: int| 0 <= j < i ==> is_hex(#[trigger] v@[j]),
        decreases v@.len() - i,
    {
        let c = v[i];
        if !(('0' <= c && c <= '9') || ('a' <= c && c <= 'f') || ('A' <= c && c <= 'F')) {
            return false;
        }
        i = i + 1;
    }
    true
}

/// What `str::parse::<i64>` reads: an optional sign, then at least one
/// digit, and a value in range.
pub open spec fn parse_i64(s: Seq<char>) -> Option<i64> {
    let neg = s.len() > 0 && s[0] == '-';
    let body = if s.len() > 0 && (s[0] == '+' || s[0] == '-') { s.drop_first() } else { s };
    if body.len() > 0 && all_digits(body) {
        let v = digits_value(body);
        if neg && v <= 0x8000_0000_0000_0000 {
            Some((0 - v) as i64)
        } else if !neg && v <= 0x7fff_ffff_ffff_ffff {
            Some(v as i64)
        } else {
            None
        }
    } else {
        None
    }
}

/// Read a signed number the way `str::parse::<i64>` does.
pub fn parse_i64_chars(s: &[char]) -> (out: Option<i64>)
    ensures
        out == parse_i64(s@),
{
    let neg = s.len() > 0 && s[0] == '-';
    let body = if s.len() > 0 && (s[0] == '+' || s[0] == '-') {
        slice(s, 1, s.len())
    } else {
        slice(s, 0, s.len())
    };
    assert(s@.subrange(0, s@.len() as int) == s@);
    assert(s@.len() > 0 ==> s@.subrange(1, s@.len() as int) == s@.drop_first());
    if body.len() == 0 || !crate::text::digits_only(body.as_slice()) {
        return None;
    }
    let limit: u64 = if neg { 0x8000_0000_0000_0000 } else { 0x7fff_ffff_ffff_ffff };
    let mut value: u64 = 0;
    let mut i: usize = 0;
    while i < body.len()
        invariant
            0 <= i <= body@.len(),
            all_digits(body@),
            body@ == (if s@.len() > 0 && (s@[0] == '+' || s@[0] == '-') { s@.drop_first() } else { s@ }),
            neg == (s@.len() > 0 && s@[0] == '-'),
            value == digits_value(body@.subrange(0, i as int)),
            value <= limit,
            limit == (if neg { 0x8000_0000_0000_0000u64 } else { 0x7fff_ffff_ffff_ffffu64 }),
        decreases body@.len() - i,
    {
        let ghost pre = body@.subrange(0, i as int);
        assert(body@.subrange(0, i + 1).drop_last() == pre);
        assert(is_digit(body@[i as int]));
        let d = (body[i] as u32 - '0' as u32) as u64;
        assert(digits_value(body@.subrange(0, i + 1)) == value * 10 + d);
        if value > (limit - d) / 10 {
            assert(value * 10 + d > limit) by (nonlinear_arith)
                requires
                    value > (limit - d) / 10,
                    d < 10,
                    d <= limit,
            ;
            proof {
                lemma_digits_grow(body@, i as int + 1);
            }
            return None;
        }
        assert(value * 10 + d <= limit) by (nonlinear_arith)
            requires
                value <= (limit - d) / 10,
                d < 10,
                d <= limit,
        ;
        value = value * 10 + d;
        i = i + 1;
    }
    assert(body@.subrange(0, body@.len() as int) == body@);
    if neg {
        if value == 0x8000_0000_0000_0000 {
            Some(i64::MIN)
        } else {
            Some(0 - (value as i64))
        }
    } else {
        Some(value as i64)
    }
}

proof fn lemma_digits_grow(s: Seq<char>, k: int)
    requires
        all_digits(s),
        0 <= k <= s.len(),
    ensures
        digits_value(s.subrange(0, k)) <= digits_value(s),
    decreases s.len() - k,
{
    if k < s.len() {
        lemma_digits_grow(s, k + 1);
        assert(s.subrange(0, k + 1).drop_last() == s.subrange(0, k));
    } else {
        assert(s.subrange(0, k) == s);
    }
}

/// What the `time` crate writes for a count of seconds since the epoch:
/// `OffsetDateTime::from_unix_timestamp` formatted as RFC 3339; nothing
/// when the moment is out of its range or the formatting fails.
pub uninterp spec fn rfc3339_utc(seconds: i64) -> Option<Seq<char>>;

/// A moment as RFC 3339, in UTC, when the `time` crate can write it.
///
/// Calls `time::OffsetDateTime::from_unix_timestamp` and formats it with
/// `Rfc3339`. The contract names the text `rfc3339_utc`; that it is the
/// calendar date of the moment is left to the `time` crate.
#[verifier::external_body]
pub(crate) fn format_utc(seconds: i64) -> (out: Option<String>)
    ensures
        crate::model::opt_view(out) == rfc3339_utc(seconds),
{
    time::OffsetDateTime::from_unix_timestamp(seconds)
        .ok()
        .and_then(|moment| moment.format(&time::format_description::well_known::Rfc3339).ok())
}

/// A moment as RFC 3339, or nothing written when it cannot be.
pub open spec fn utc_text(seconds: i64) -> Seq<char> {
    match rfc3339_utc(seconds) {
        Some(t) => t,
        None => Seq::empty(),
    }
}

/// A moment as RFC 3339, or the empty text when the moment cannot be
/// written.
pub fn utc_or_empty(seconds: i64) -> (out: String)
    ensures
        out@ == utc_text(seconds),
{
    match format_utc(seconds) {
        Some(t) => t,
        None => String::new(),
    }
}

/// The date a count of seconds names, or nothing when it is not a count.
pub open spec fn spec_iso_utc(seconds: Seq<char>) -> Seq<char> {
    match parse_i64(trim(seconds)) {
        Some(v) => utc_text(v),
        None => Seq::empty(),
    }
}

/// A count of seconds since the epoch, as a date the interface can show.
pub fn iso_utc(seconds: &str) -> (out: String)
    ensures
        out@ == spec_iso_utc(seconds@),
{
    let v = chars_of(seconds);
    let t = trim_chars(v.as_slice());
    match parse_i64_chars(t.as_slice()) {
        Some(n) => utc_or_empty(n),
        None => String::new(),
    }
}

/// One record of a `git log` answer read into a commit, when it has the
/// seven fields and a hash.
pub open spec fn spec_parse_one(record: Seq<char>) -> Option<CommitView> {
    let f = split(record, FIELD);
    if f.len() < 7 || trim(f[0]).len() == 0 {
        None
    } else {
        Some(
            CommitView {
                hash: trim(f[0]),
                parents: words(f[1]),
                author: f[2],
                email: f[3],
                date: spec_iso_utc(f[4]),
                subject: f[5],
                message: f[6],
            },
        )
    }
}

/// The commits of a run of records, in order, leaving out what does not read.
pub open spec fn spec_parse_records(rs: Seq<Seq<char>>) -> Seq<CommitView>
    decreases rs.len(),
{
    if rs.len() == 0 {
        Seq::empty()
    } else {
        let prev = spec_parse_records(rs.drop_last());
        let r = trim_start(rs.last());
        if r.len() > 0 && spec_parse_one(r) is Some {
            prev.push(spec_parse_one(r).unwrap())
        } else {
            prev
        }
    }
}

/// The commits of a `git log` answer.
pub open spec fn spec_parse(out: Seq<char>) -> Seq<CommitView> {
    spec_parse_records(split(out, RECORD))
}

/// The views of a sequence of commits.
pub open spec fn commits_view(v: Seq<CommitInfo>) -> Seq<CommitView> {
    v.map_values(|c: CommitInfo| c@)
}

/// Strings made of runs of characters.
fn strings_of(v: &Vec<Vec<char>>) -> (out: Vec<String>)
    ensures
        strings_view(out@) == runs_view(v@),
{
    let mut out: Vec<String> = Vec::new();
    let mut i: usize = 0;
    while i < v.len()
        invariant
            0 <= i <= v@.len(),
            strings_view(out@) == runs_view(v@.subrange(0, i as int)),
        decreases v@.len() - i,
    {
        let s = string_of(v[i].as_slice());
        let ghost before = out@;
        out.push(s);
        assert(v@.subrange(0, i + 1) == v@.subrange(0, i as int).push(v@[i as int]));
        assert(strings_view(out@) =~= strings_view(before).push(s@));
        assert(runs_view(v@.subrange(0, i + 1)) =~= runs_view(v@.subrange(0, i as int)).push(v@[i as int]@));
        i = i + 1;
    }
    assert(v@.subrange(0, v@.len() as int) == v@);
    out
}

/// One record of a `git log` answer.
pub fn parse_one(record: &[char]) -> (out: Option<CommitInfo>)
    ensures
        match out {
            Some(c) => spec_parse_one(record@) == Some(c@),
            None => spec_parse_one(record@) is None,
        },
{
    let f = split_chars(record, FIELD);
    let ghost fv = split(record@, FIELD);
    if f.len() < 7 {
        return None;
    }
    let hash = trim_chars(f[0].as_slice());
    if hash.len() == 0 {
        return None;
    }
    let parents = words_of(f[1].as_slice());
    let date = iso_utc(string_of(f[4].as_slice()).as_str());
    let c = CommitInfo {
        hash: string_of(hash.as_slice()),
        parents: strings_of(&parents),
        author: string_of(f[2].as_slice()),
        email: string_of(f[3].as_slice()),
        date,
        subject: string_of(f[5].as_slice()),
        message: string_of(f[6].as_slice()),
    };
    assert(runs_view(parents@) =~= words(fv[1]));
    Some(c)
}

/// The commits of a `git log` answer, newest first as git prints them.
pub fn parse(out: &str) -> (commits: Vec<CommitInfo>)
    ensures
        commits_view(commits@) == spec_parse(out@),
{
    let text = chars_of(out);
    let records = split_chars(text.as_slice(), RECORD);
    let ghost rs = split(out@, RECORD);
    let mut commits: Vec<CommitInfo> = Vec::new();
    let mut i: usize = 0;
    while i < records.len()
        invariant
            0 <= i <= records@.len(),
            records@.len() == rs.len(),
            forall|k: int| 0 <= k < records@.len() ==> #[trigger] records@[k]@ == rs[k],
            commits_view(commits@) == spec_parse_records(rs.subrange(0, i as int)),
        decreases records@.len() - i,
    {
        assert(rs.subrange(0, i + 1).drop_last() == rs.subrange(0, i as int));
        let r = trim_start_chars(records[i].as_slice());
        if r.len() > 0 {
            match parse_one(r.as_slice()) {
                Some(c) => {
                    let ghost before = commits@;
                    commits.push(c);
                    assert(commits_view(commits@) =~= commits_view(before).push(c@));
                },
                None => {},
            }
        }
        i = i + 1;
    }
    assert(rs.subrange(0, rs.len() as int) == rs);
    commits
}

/// The branch a `.gerrit-branch` file names: its first line that is not
/// empty and not a comment, trimmed.
pub open spec fn spec_branch_in(ls: Seq<Seq<char>>) -> Option<Seq<char>>
    decreases ls.len(),
{
    if ls.len() == 0 {
        None
    } else {
        let t = trim(ls[0]);
        if t.len() > 0 && t[0] != '#' {
            Some(t)
        } else {
            spec_branch_in(ls.drop_first())
        }
    }
}

/// The branch a `.gerrit-branch` file names, when it names one.
pub fn branch_in(text: &str) -> (out: Option<String>)
    ensures
        opt_str(out) == spec_branch_in(lines(text@)),
{
    let v = chars_of(text);
    let ls = lines_of(v.as_slice());
    let ghost lv = lines(text@);
    let mut i: usize = 0;
    assert(lv.subrange(0, lv.len() as int) == lv);
    while i < ls.len()
        invariant
            0 <= i <= ls@.len(),
            lv == lines(text@),
            ls@.len() == lv.len(),
            forall|k: int| 0 <= k < ls@.len() ==> #[trigger] ls@[k]@ == lv[k],
            spec_branch_in(lv) == spec_branch_in(lv.subrange(i as int, lv.len() as int)),
        decreases ls@.len() - i,
    {
        let ghost rest = lv.subrange(i as int, lv.len() as int);
        assert(rest[0] == lv[i as int]);
        assert(rest.drop_first() == lv.subrange(i + 1, lv.len() as int));
        let t = trim_chars(ls[i].as_slice());
        if t.len() > 0 && t[0] != '#' {
            return Some(string_of(t.as_slice()));
        }
        i = i + 1;
    }
    None
}

} // verus!
