//! Who may talk to the server.
//!
//! The server binds the loopback address, which stops another machine. It
//! does not stop another user on this one, or a page in another tab. A token
//! does: a request passes when it carries the token, in the query of the
//! first page load or in the cookie that load leaves behind.

use vstd::prelude::*;
use crate::comments::{hex_encode, hex_of, random_bytes};
use crate::text::{
    chars_of, extend_str, find_char, find_char_in, same_str, slice, split, split_chars, string_of,
    trim, trim_chars,
};

verus! {

/// The cookie the first page load leaves behind.
pub const COOKIE: &'static str = "qreview_token";

/// What a refused request is answered.
pub const REFUSED: &'static str = "this page needs the token qreview printed";

/// A random token, made once per run: thirty-two bytes from the system, in
/// hexadecimal. Nothing when the system has no randomness.
pub fn new_token() -> (out: Option<String>)
    ensures
        out matches Some(t) ==> (exists|b: Seq<u8>| b.len() == 32 && t@ == hex_of(b)),
{
    match random_bytes(32) {
        Some(b) => Some(token_of(b.as_slice())),
        None => None,
    }
}

/// The token made of some bytes: the bytes in lowercase hexadecimal.
pub fn token_of(bytes: &[u8]) -> (out: String)
    ensures
        out@ == hex_of(bytes@),
{
    hex_encode(bytes)
}

/// The value of the token cookie among the pairs of a `Cookie` header: the
/// first pair, trimmed, that splits at an `=` into the cookie's name and a
/// value.
pub open spec fn cookie_in(pairs: Seq<Seq<char>>) -> Option<Seq<char>>
    decreases pairs.len(),
{
    if pairs.len() == 0 {
        None
    } else {
        let p = trim(pairs[0]);
        match find_char(p, '=') {
            Some(i) => if p.subrange(0, i) == COOKIE@ {
                Some(p.subrange(i + 1, p.len() as int))
            } else {
                cookie_in(pairs.drop_first())
            },
            None => cookie_in(pairs.drop_first()),
        }
    }
}

/// The token a `Cookie` header carries, when it carries one.
pub fn cookie(header: &str) -> (out: Option<String>)
    ensures
        match out {
            Some(v) => cookie_in(split(header@, ';')) == Some(v@),
            None => cookie_in(split(header@, ';')) is None,
        },
{
    let pairs = split_chars(chars_of(header).as_slice(), ';');
    let ghost all = split(header@, ';');
    let mut i: usize = 0;
    assert(all.subrange(0, all.len() as int) == all);
    while i < pairs.len()
        invariant
            0 <= i <= pairs@.len(),
            all == split(header@, ';'),
            pairs@.len() == all.len(),
            forall|k: int| 0 <= k < pairs@.len() ==> #[trigger] pairs@[k]@ == all[k],
            cookie_in(all) == cookie_in(all.subrange(i as int, all.len() as int)),
        decreases pairs@.len() - i,
    {
        let ghost rest = all.subrange(i as int, all.len() as int);
        assert(rest[0] == pairs@[i as int]@);
        assert(rest.drop_first() == all.subrange(i + 1, all.len() as int));
        let p = trim_chars(pairs[i].as_slice());
        let ps = p.as_slice();
        assert(ps@ == trim(rest[0]));
        if let Some(at) = find_char_in(ps, '=') {
            let n = ps.len();
            let name = slice(ps, 0, at);
            if same_str(string_of(name.as_slice()).as_str(), COOKIE) {
                let value = slice(ps, at + 1, n);
                assert(cookie_in(rest) == Some(value@));
                return Some(string_of(value.as_slice()));
            }
            assert(cookie_in(rest) == cookie_in(rest.drop_first()));
        } else {
            assert(cookie_in(rest) == cookie_in(rest.drop_first()));
        }
        i = i + 1;
    }
    None
}

/// The query of a request, as far as the guard reads it.
#[derive(Clone, Debug, Default)]
pub struct TokenQuery {
    pub t: Option<String>,
}

/// What the guard does with a request.
pub enum Admission {
    /// The request carries no token: it is answered `REFUSED`.
    Refused,
    /// The request passes.
    Pass,
    /// The request passes, and the response hands over this cookie line, so
    /// the address bar stays clean afterwards.
    PassAndRemember(String),
}

/// The line that sets the token cookie.
pub open spec fn cookie_line(token: Seq<char>) -> Seq<char> {
    COOKIE@ + "="@ + token + "; Path=/; SameSite=Strict; HttpOnly"@
}

/// Whether a part of the request carries the token.
pub open spec fn carries(part: Option<&str>, token: &str) -> bool {
    part matches Some(v) && v@ == token@
}

/// Whether the query carries the token.
pub open spec fn query_carries(query: TokenQuery, token: &str) -> bool {
    query.t matches Some(v) && v@ == token@
}

/// Let the request through when it carries the token, as a query parameter
/// or as the cookie the first load set, and hand the cookie over when it
/// came in the query alone.
pub fn guard(token: &str, query: &TokenQuery, cookie: Option<&str>) -> (out: Admission)
    ensures
        out is Refused <==> (!query_carries(*query, token) && !carries(cookie, token)),
        out is Pass <==> carries(cookie, token),
        out matches Admission::PassAndRemember(line) ==> query_carries(*query, token) && line@ == cookie_line(token@),
        (query_carries(*query, token) && !carries(cookie, token)) ==> out is PassAndRemember,
{
    let from_query = match &query.t {
        Some(q) => same_str(q.as_str(), token),
        None => false,
    };
    let from_cookie = match cookie {
        Some(c) => same_str(c, token),
        None => false,
    };
    if !from_query && !from_cookie {
        return Admission::Refused;
    }
    if from_query && !from_cookie {
        let mut line = chars_of(COOKIE);
        extend_str(&mut line, "=");
        extend_str(&mut line, token);
        extend_str(&mut line, "; Path=/; SameSite=Strict; HttpOnly");
        return Admission::PassAndRemember(string_of(line.as_slice()));
    }
    Admission::Pass
}

} // verus!
