//! Reading the patch sets already pushed to Gerrit.
//!
//! qreview only reads. It never votes, never comments on the server, and
//! never pushes. The query itself runs ssh, which the application does; the
//! library builds what is asked and reads what comes back.

pub mod answer;
pub mod coords;
pub mod posted;

use vstd::prelude::*;
use crate::text::{chars_of, decimal, decimal_of, extend, extend_str, string_of, trim, trim_chars};

pub use answer::{Change, InlineComment, PatchSet, Person};
pub use coords::Coordinates;

verus! {

/// `(change:A OR change:B …)`, the group of the changes asked about.
pub open spec fn id_group(ids: Seq<Seq<char>>) -> Seq<char>
    decreases ids.len(),
{
    if ids.len() == 0 {
        Seq::empty()
    } else if ids.len() == 1 {
        "change:"@ + ids[0]
    } else {
        id_group(ids.drop_last()) + " OR "@ + "change:"@ + ids.last()
    }
}

/// What one query asks: the changes, as one `OR` group, then the project and,
/// when there is one, the branch, so both hold for every change of the group.
pub open spec fn spec_terms(coords: Seq<char>, branch: Option<Seq<char>>, ids: Seq<Seq<char>>) -> Seq<char> {
    let head = "("@ + id_group(ids) + ")"@ + " project:"@ + coords;
    match branch {
        Some(b) => head + " branch:"@ + b,
        None => head,
    }
}

/// The view of a slice of string slices.
pub open spec fn strs_view(ids: Seq<&str>) -> Seq<Seq<char>> {
    ids.map_values(|s: &str| s@)
}

/// What one query asks: the changes, and where they live.
///
/// The changes are one `OR` group of their own, so the project and the
/// branch still apply to every one of them.
pub fn terms_of(coords: &Coordinates, change_ids: &[&str]) -> (out: String)
    ensures
        out@ == spec_terms(coords.project@, crate::model::opt_view(coords.branch), strs_view(change_ids@)),
{
    let ghost ids = strs_view(change_ids@);
    let mut group: Vec<char> = Vec::new();
    let mut i: usize = 0;
    while i < change_ids.len()
        invariant
            0 <= i <= change_ids@.len(),
            ids == strs_view(change_ids@),
            group@ == id_group(ids.subrange(0, i as int)),
        decreases change_ids@.len() - i,
    {
        assert(ids.subrange(0, i + 1).drop_last() == ids.subrange(0, i as int));
        if i > 0 {
            extend_str(&mut group, " OR ");
        }
        extend_str(&mut group, "change:");
        extend_str(&mut group, change_ids[i]);
        proof {
            let pre = ids.subrange(0, i as int);
            if i == 0 {
                assert(group@ == "change:"@ + ids[0]);
            } else {
                assert(group@ == id_group(pre) + " OR "@ + "change:"@ + ids[i as int]);
            }
        }
        i = i + 1;
    }
    assert(ids.subrange(0, ids.len() as int) == ids);
    let mut out = chars_of("(");
    extend(&mut out, group.as_slice());
    extend_str(&mut out, ")");
    extend_str(&mut out, " project:");
    extend_str(&mut out, coords.project.as_str());
    match &coords.branch {
        Some(b) => {
            extend_str(&mut out, " branch:");
            extend_str(&mut out, b.as_str());
        },
        None => {},
    }
    string_of(out.as_slice())
}

/// Why a query gave nothing.
///
/// The caller decides what to do next, and the two cases differ: a server
/// that said no may still answer another question, and one that said nothing
/// will only make the reader wait again.
pub enum Failed {
    /// The server answered, and said no.
    Refused(String),
    /// Nothing answered: no route, no host key, no time left.
    Unreachable(String),
}

impl Failed {
    /// What went wrong, whichever way it went wrong.
    pub fn error(self) -> (e: String)
        ensures
            e@ == match self {
                Failed::Refused(x) => x@,
                Failed::Unreachable(x) => x@,
            },
    {
        match self {
            Failed::Refused(error) => error,
            Failed::Unreachable(error) => error,
        }
    }
}

/// How long a query may take, in seconds, before the local review goes on
/// without it.
pub const TIMEOUT_SECONDS: u64 = 5;

/// The texts of a run of strings.
pub open spec fn texts_view(v: Seq<String>) -> Seq<Seq<char>> {
    v.map_values(|s: String| s@)
}

/// The arguments of one query: with the remarks, or without them for a
/// server that does not know that option.
pub open spec fn spec_query_args(terms: Seq<char>, comments: bool) -> Seq<Seq<char>> {
    let head = seq!["gerrit"@, "query"@, "--format=JSON"@, "--patch-sets"@];
    if comments {
        head.push("--comments"@).push(terms)
    } else {
        head.push(terms)
    }
}

/// The arguments of one query.
pub fn query_args(terms: &str, comments: bool) -> (out: Vec<String>)
    ensures
        texts_view(out@) == spec_query_args(terms@, comments),
{
    let mut out: Vec<String> = Vec::new();
    out.push(string_of(chars_of("gerrit").as_slice()));
    out.push(string_of(chars_of("query").as_slice()));
    out.push(string_of(chars_of("--format=JSON").as_slice()));
    out.push(string_of(chars_of("--patch-sets").as_slice()));
    if comments {
        out.push(string_of(chars_of("--comments").as_slice()));
    }
    out.push(string_of(chars_of(terms).as_slice()));
    assert(texts_view(out@) =~= spec_query_args(terms@, comments));
    out
}

/// The arguments ssh runs with: never a prompt, a new host key accepted,
/// the port and the host, then the command.
pub open spec fn spec_ssh_args(port: Seq<char>, host: Seq<char>, args: Seq<Seq<char>>) -> Seq<Seq<char>> {
    seq!["-oBatchMode=yes"@, "-oStrictHostKeyChecking=accept-new"@, "-p"@, port, host] + args
}

/// The arguments of the ssh call that asks the server.
pub fn ssh_args(coords: &Coordinates, args: &Vec<String>) -> (out: Vec<String>)
    ensures
        texts_view(out@) == spec_ssh_args(decimal(coords.port as nat), coords.host@, texts_view(args@)),
{
    let mut out: Vec<String> = Vec::new();
    out.push(string_of(chars_of("-oBatchMode=yes").as_slice()));
    out.push(string_of(chars_of("-oStrictHostKeyChecking=accept-new").as_slice()));
    out.push(string_of(chars_of("-p").as_slice()));
    out.push(string_of(decimal_of(coords.port as usize).as_slice()));
    out.push(string_of(chars_of(coords.host.as_str()).as_slice()));
    let ghost head = texts_view(out@);
    let mut i: usize = 0;
    while i < args.len()
        invariant
            0 <= i <= args@.len(),
            texts_view(out@) == head + texts_view(args@).take(i as int),
        decreases args@.len() - i,
    {
        let ghost prev = out@;
        proof {
            assert(texts_view(prev).len() == prev.len());
            assert(texts_view(args@).len() == args@.len());
        }
        out.push(string_of(chars_of(args[i].as_str()).as_slice()));
        proof {
            let want = head + texts_view(args@).take(i as int + 1);
            assert(texts_view(args@)[i as int] == args@[i as int]@);
            assert forall|j: int| 0 <= j < out@.len() implies #[trigger] texts_view(out@)[j] == want[j] by {
                if j < prev.len() {
                    assert(out@[j] == prev[j]);
                    assert(texts_view(prev)[j] == prev[j]@);
                }
            }
            assert(texts_view(out@) =~= want);
        }
        i = i + 1;
    }
    assert(texts_view(args@).take(args@.len() as int) == texts_view(args@));
    assert(head =~= seq!["-oBatchMode=yes"@, "-oStrictHostKeyChecking=accept-new"@, "-p"@, decimal(coords.port as nat), coords.host@]);
    out
}

/// What came back from ssh, as the run saw it.
pub enum Ran {
    /// No answer in time.
    TimedOut,
    /// ssh could not be started, for the reason given.
    NotRun(String),
    /// ssh ran: whether it succeeded, what it printed, and what it said on
    /// its error stream, both read as text.
    Done(bool, String, String),
}

/// The answer of a query, or why it gave none.
pub open spec fn spec_outcome(host: Seq<char>, ran: Ran) -> Result<Seq<char>, (bool, Seq<char>)> {
    match ran {
        Ran::TimedOut => Err((false, host + " did not answer in "@ + decimal(TIMEOUT_SECONDS as nat) + "s"@)),
        Ran::NotRun(why) => Err((false, "cannot run ssh: "@ + why@)),
        Ran::Done(ok, out, err) => if ok {
            Ok(out@)
        } else {
            Err((true, "the Gerrit query failed: "@ + trim(err@)))
        },
    }
}

/// The view of a failure: whether the server refused, and the message.
pub open spec fn failed_view(r: Result<String, Failed>) -> Result<Seq<char>, (bool, Seq<char>)> {
    match r {
        Ok(s) => Ok(s@),
        Err(Failed::Refused(m)) => Err((true, m@)),
        Err(Failed::Unreachable(m)) => Err((false, m@)),
    }
}

/// The answer of a query, or why it gave none: nothing answered in time or
/// ssh could not run, and the server is unreachable; it ran and failed, and
/// the server refused.
pub fn outcome(host: &str, ran: Ran) -> (out: Result<String, Failed>)
    ensures
        failed_view(out) == spec_outcome(host@, ran),
{
    match ran {
        Ran::TimedOut => {
            let mut m = chars_of(host);
            extend_str(&mut m, " did not answer in ");
            extend(&mut m, decimal_of(TIMEOUT_SECONDS as usize).as_slice());
            extend_str(&mut m, "s");
            Err(Failed::Unreachable(string_of(m.as_slice())))
        },
        Ran::NotRun(why) => {
            let mut m = chars_of("cannot run ssh: ");
            extend_str(&mut m, why.as_str());
            Err(Failed::Unreachable(string_of(m.as_slice())))
        },
        Ran::Done(ok, out, err) => if ok {
            Ok(out)
        } else {
            let mut m = chars_of("the Gerrit query failed: ");
            let t = trim_chars(chars_of(err.as_str()).as_slice());
            extend(&mut m, t.as_slice());
            Err(Failed::Refused(string_of(m.as_slice())))
        },
    }
}

/// Whether a failed query is asked again without the remarks: only when the
/// server refused. One that did not answer will not answer a second time,
/// and the reader is already waiting.
pub fn ask_again(failed: &Failed) -> (b: bool)
    ensures
        b == (failed is Refused),
{
    match failed {
        Failed::Refused(_) => true,
        Failed::Unreachable(_) => false,
    }
}

} // verus!
