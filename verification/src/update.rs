//! Is a newer qreview out?
//!
//! The tool asks the address the configuration names, which is the home of
//! the project unless a reader says otherwise. An empty address asks
//! nobody, and that is how the check is turned off. Every failure is
//! silence. Asking is the caller's; what the answer means is decided here.

use vstd::prelude::*;
use crate::config::Update;
use crate::text::{
    all_digits, chars_of, digits_only, digits_value, is_digit, lemma_digits_prefix_grows, slice,
    split, split_chars, string_of, trim, trim_chars, trim_start_char, trim_start_matching,
};

verus! {

/// What the interface shows beside the version it runs.
#[derive(Clone, Debug, Default, PartialEq, Eq)]
pub struct Release {
    /// The tag of the newest release, when one was found.
    pub latest: Option<String>,
    /// The page of that release, when the answer names it.
    pub url: Option<String>,
    /// True when `latest` is newer than what is running.
    pub newer: bool,
}

/// A number the way `str::parse::<u64>` reads it: an optional `+`, then
/// digits, and no more than `u64::MAX`.
pub open spec fn parse_u64(s: Seq<char>) -> Option<u64> {
    let body = if s.len() > 0 && s[0] == '+' { s.drop_first() } else { s };
    if body.len() > 0 && all_digits(body) && digits_value(body) <= u64::MAX {
        Some(digits_value(body) as u64)
    } else {
        None
    }
}

/// Read a number the way `str::parse::<u64>` does.
fn parse_u64_chars(s: &[char]) -> (out: Option<u64>)
    ensures
        out == parse_u64(s@),
{
    let body = if s.len() > 0 && s[0] == '+' {
        slice(s, 1, s.len())
    } else {
        slice(s, 0, s.len())
    };
    assert(s@.subrange(0, s@.len() as int) == s@);
    assert(s@.len() > 0 ==> s@.subrange(1, s@.len() as int) == s@.drop_first());
    if body.len() == 0 || !digits_only(body.as_slice()) {
        return None;
    }
    let mut value: u64 = 0;
    let mut i: usize = 0;
    while i < body.len()
        invariant
            0 <= i <= body@.len(),
            all_digits(body@),
            body@ == (if s@.len() > 0 && s@[0] == '+' { s@.drop_first() } else { s@ }),
            value == digits_value(body@.subrange(0, i as int)),
        decreases body@.len() - i,
    {
        let ghost pre = body@.subrange(0, i as int);
        assert(body@.subrange(0, i + 1).drop_last() == pre);
        assert(is_digit(body@[i as int]));
        let d = (body[i] as u32 - '0' as u32) as u64;
        assert(digits_value(body@.subrange(0, i + 1)) == value * 10 + d);
        if value > (u64::MAX - d) / 10 {
            assert(value * 10 + d > u64::MAX) by (nonlinear_arith)
                requires
                    value > (u64::MAX - d) / 10,
                    d < 10,
            ;
            proof {
                lemma_digits_prefix_grows(body@, i as int + 1);
            }
            return None;
        }
        value = value * 10 + d;
        i = i + 1;
    }
    assert(body@.subrange(0, body@.len() as int) == body@);
    Some(value)
}

/// The three numbers of a version, `v` before them allowed. Anything that
/// does not read as exactly three numbers is no version.
pub open spec fn spec_parts(version: Seq<char>) -> Option<(u64, u64, u64)> {
    let fields = split(trim_start_char(trim(version), 'v'), '.');
    if fields.len() != 3 {
        None
    } else {
        match (parse_u64(fields[0]), parse_u64(fields[1]), parse_u64(fields[2])) {
            (Some(a), Some(b), Some(c)) => Some((a, b, c)),
            _ => None,
        }
    }
}

/// The three numbers of a version.
pub fn parts(version: &str) -> (out: Option<(u64, u64, u64)>)
    ensures
        out == spec_parts(version@),
{
    let t = trim_chars(chars_of(version).as_slice());
    let t = trim_start_matching(t.as_slice(), 'v');
    let fields = split_chars(t.as_slice(), '.');
    if fields.len() != 3 {
        return None;
    }
    match (
        parse_u64_chars(fields[0].as_slice()),
        parse_u64_chars(fields[1].as_slice()),
        parse_u64_chars(fields[2].as_slice()),
    ) {
        (Some(a), Some(b), Some(c)) => Some((a, b, c)),
        _ => None,
    }
}

/// `there` comes after `here`, the numbers compared in order.
pub open spec fn later(there: (u64, u64, u64), here: (u64, u64, u64)) -> bool {
    ||| there.0 > here.0
    ||| there.0 == here.0 && there.1 > here.1
    ||| there.0 == here.0 && there.1 == here.1 && there.2 > here.2
}

/// Is `found` a later version than `running`?
///
/// Both are read as numbers, so 0.10.0 is later than 0.9.0. Anything that
/// does not read as three numbers says nothing: a tag nobody can compare is
/// not a reason to tell a reader they are behind.
pub fn newer(running: &str, found: &str) -> (b: bool)
    ensures
        b == match (spec_parts(running@), spec_parts(found@)) {
            (Some(here), Some(there)) => later(there, here),
            _ => false,
        },
{
    match (parts(running), parts(found)) {
        (Some(here), Some(there)) => there.0 > here.0 || (there.0 == here.0 && there.1 > here.1) || (
        there.0 == here.0 && there.1 == here.1 && there.2 > here.2),
        _ => false,
    }
}

/// What `serde_json` reads in a JSON text under a key of its top object,
/// when that value is a string.
pub uninterp spec fn json_str_field(body: Seq<char>, key: Seq<char>) -> Option<Seq<char>>;

/// The string a JSON text holds under a key of its top object.
///
/// Calls `serde_json::from_str` into a `serde_json::Value`, then `get` and
/// `as_str`. The contract names the answer `json_str_field`: nothing when
/// the text is not JSON, has no such key, or holds no string there.
#[verifier::external_body]
fn json_string(body: &str, key: &str) -> (out: Option<String>)
    ensures
        crate::model::opt_view(out) == json_str_field(body@, key@),
{
    serde_json::from_str::<serde_json::Value>(body).ok().and_then(
        |json| json.get(key).and_then(|value| value.as_str()).map(|s| s.to_owned()),
    )
}

/// The tag and the page of the release, out of the answer: the tag trimmed,
/// when it is not empty.
pub open spec fn spec_read(body: Seq<char>) -> Option<(Seq<char>, Option<Seq<char>>)> {
    match json_str_field(body, "tag_name"@) {
        Some(t) => if trim(t).len() > 0 {
            Some((trim(t), json_str_field(body, "html_url"@)))
        } else {
            None
        },
        None => None,
    }
}

/// The tag and the page of the release, out of the answer.
///
/// `tag_name` and `html_url` are what the releases API of GitHub answers
/// with. Any address that says the same two things works.
pub fn read(body: &str) -> (out: Option<(String, Option<String>)>)
    ensures
        match (out, spec_read(body@)) {
            (Some((t, p)), Some((st, sp))) => t@ == st && crate::model::opt_view(p) == sp,
            (None, None) => true,
            _ => false,
        },
{
    let tag = match json_string(body, "tag_name") {
        Some(t) => t,
        None => return None,
    };
    let t = trim_chars(chars_of(tag.as_str()).as_slice());
    if t.len() == 0 {
        return None;
    }
    let page = json_string(body, "html_url");
    Some((string_of(t.as_slice()), page))
}

/// The address to ask, when the configuration names one that is not empty.
pub fn address(config: &Update) -> (out: Option<&str>)
    ensures
        match out {
            Some(u) => config.url matches Some(c) && c@ == u@ && u@.len() > 0,
            None => config.url is None || config.url->0@.len() == 0,
        },
{
    match &config.url {
        Some(u) => if u.as_str().is_empty() {
            None
        } else {
            Some(u.as_str())
        },
        None => None,
    }
}

/// What the interface shows, once the answer is in: nothing when there was
/// no answer or it named no release, else the release and whether it is
/// newer than the one running.
pub fn release_of(running: &str, body: Option<String>) -> (r: Release)
    ensures
        match body {
            None => r == Release { latest: None, url: None, newer: false },
            Some(b) => match spec_read(b@) {
                None => r == Release { latest: None, url: None, newer: false },
                Some((tag, page)) => r.latest matches Some(l) && l@ == tag && crate::model::opt_view(r.url) == page
                    && r.newer == match (spec_parts(running@), spec_parts(tag)) {
                    (Some(here), Some(there)) => later(there, here),
                    _ => false,
                },
            },
        },
{
    let b = match body {
        None => return Release { latest: None, url: None, newer: false },
        Some(b) => b,
    };
    match read(b.as_str()) {
        None => Release { latest: None, url: None, newer: false },
        Some((latest, page)) => {
            let n = newer(running, latest.as_str());
            Release { latest: Some(latest), url: page, newer: n }
        },
    }
}

/// A later version is later whatever is running, and no version is later
/// than itself.
pub proof fn law_newer_is_a_strict_order(a: (u64, u64, u64), b: (u64, u64, u64), c: (u64, u64, u64))
    ensures
        !later(a, a),
        later(a, b) ==> !later(b, a),
        later(a, b) && later(b, c) ==> later(a, c),
{
}

} // verus!
