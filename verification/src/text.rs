//! Text as the library reads it: a sequence of characters.
//!
//! The contracts speak of `Seq<char>`, which is what `String` and `&str`
//! are viewed as. The functions here are the small pieces the parsers and
//! the printers share, each with what it computes.

use vstd::prelude::*;

verus! {

/// True when `s` begins with `p`.
pub open spec fn starts_with(s: Seq<char>, p: Seq<char>) -> bool {
    p.len() <= s.len() && s.subrange(0, p.len() as int) == p
}

/// True when `s` ends with `p`.
pub open spec fn ends_with(s: Seq<char>, p: Seq<char>) -> bool {
    p.len() <= s.len() && s.subrange(s.len() - p.len(), s.len() as int) == p
}

/// What is left of `s` once the prefix `p` is cut off.
pub open spec fn after(s: Seq<char>, p: Seq<char>) -> Seq<char> {
    s.subrange(p.len() as int, s.len() as int)
}

/// The characters Unicode calls white space, which is what `char::is_whitespace`
/// tests for.
pub open spec fn is_ws(c: char) -> bool {
    ||| c == '\t' || c == '\n' || c == '\u{0B}' || c == '\u{0C}' || c == '\r' || c == ' '
    ||| c == '\u{85}' || c == '\u{A0}' || c == '\u{1680}'
    ||| ('\u{2000}' <= c && c <= '\u{200A}')
    ||| c == '\u{2028}' || c == '\u{2029}' || c == '\u{202F}' || c == '\u{205F}' || c == '\u{3000}'
}

/// `s` without the white space at its end.
pub open spec fn trim_end(s: Seq<char>) -> Seq<char>
    decreases s.len(),
{
    if s.len() > 0 && is_ws(s.last()) {
        trim_end(s.drop_last())
    } else {
        s
    }
}

/// `s` without the white space at its start.
pub open spec fn trim_start(s: Seq<char>) -> Seq<char>
    decreases s.len(),
{
    if s.len() > 0 && is_ws(s[0]) {
        trim_start(s.drop_first())
    } else {
        s
    }
}

/// `s` without white space at either end.
pub open spec fn trim(s: Seq<char>) -> Seq<char> {
    trim_end(trim_start(s))
}

/// `s` without the copies of `c` at its end.
pub open spec fn trim_end_char(s: Seq<char>, c: char) -> Seq<char>
    decreases s.len(),
{
    if s.len() > 0 && s.last() == c {
        trim_end_char(s.drop_last(), c)
    } else {
        s
    }
}

/// `s` without the copies of `c` at its start.
pub open spec fn trim_start_char(s: Seq<char>, c: char) -> Seq<char>
    decreases s.len(),
{
    if s.len() > 0 && s[0] == c {
        trim_start_char(s.drop_first(), c)
    } else {
        s
    }
}

/// The pieces of `s` between the copies of `sep`, the way `str::split` cuts
/// them: `n` separators make `n + 1` pieces, empty ones included.
pub open spec fn split(s: Seq<char>, sep: char) -> Seq<Seq<char>>
    decreases s.len(),
{
    if s.len() == 0 {
        seq![Seq::<char>::empty()]
    } else {
        let before = split(s.drop_last(), sep);
        if s.last() == sep {
            before.push(Seq::<char>::empty())
        } else {
            before.update(before.len() - 1, before.last().push(s.last()))
        }
    }
}

/// A split always has at least one piece.
pub proof fn lemma_split_nonempty(s: Seq<char>, sep: char)
    ensures
        split(s, sep).len() >= 1,
    decreases s.len(),
{
    if s.len() > 0 {
        lemma_split_nonempty(s.drop_last(), sep);
    }
}

/// What `find` answers is a place where the text occurs.
pub proof fn lemma_find_occurs(s: Seq<char>, p: Seq<char>)
    ensures
        find(s, p) matches Some(i) ==> occurs_at(s, p, i),
{
    reveal(find);
    if exists|i: int| occurs_at(s, p, i) {
        let w = choose|i: int| occurs_at(s, p, i);
        lemma_first_occurrence(s, p, w);
    }
}

proof fn lemma_first_occurrence(s: Seq<char>, p: Seq<char>, w: int)
    requires
        occurs_at(s, p, w),
    ensures
        exists|i: int| occurs_at(s, p, i) && forall|j: int| 0 <= j < i ==> !occurs_at(s, p, j),
    decreases w,
{
    if exists|j: int| 0 <= j < w && occurs_at(s, p, j) {
        let j = choose|j: int| 0 <= j < w && occurs_at(s, p, j);
        lemma_first_occurrence(s, p, j);
    } else {
        assert(forall|j: int| 0 <= j < w ==> !occurs_at(s, p, j));
    }
}

/// True when `p` occurs in `s` at `i`.
pub open spec fn occurs_at(s: Seq<char>, p: Seq<char>, i: int) -> bool {
    0 <= i && i + p.len() <= s.len() && s.subrange(i, i + p.len()) == p
}

/// The first place `p` occurs in `s`, the way `str::find` answers.
#[verifier::opaque]
pub open spec fn find(s: Seq<char>, p: Seq<char>) -> Option<int> {
    if exists|i: int| occurs_at(s, p, i) {
        Some(choose|i: int| occurs_at(s, p, i) && forall|j: int| 0 <= j < i ==> !occurs_at(s, p, j))
    } else {
        None
    }
}

/// True when `c` is an ASCII digit.
pub open spec fn is_digit(c: char) -> bool {
    '0' <= c && c <= '9'
}

/// The value of a run of ASCII digits.
pub open spec fn digits_value(s: Seq<char>) -> nat
    decreases s.len(),
{
    if s.len() == 0 {
        0
    } else {
        digits_value(s.drop_last()) * 10 + ((s.last() as u32) - ('0' as u32)) as nat
    }
}

/// True when every character of `s` is an ASCII digit.
pub open spec fn all_digits(s: Seq<char>) -> bool {
    forall|i: int| 0 <= i < s.len() ==> is_digit(#[trigger] s[i])
}

/// What `str::parse::<usize>` reads: an optional `+`, then at least one
/// digit, and a value that fits.
pub open spec fn parse_usize(s: Seq<char>) -> Option<usize> {
    let body = if s.len() > 0 && s[0] == '+' { s.drop_first() } else { s };
    if body.len() > 0 && all_digits(body) && digits_value(body) <= usize::MAX {
        Some(digits_value(body) as usize)
    } else {
        None
    }
}

/// The decimal digit of a number below ten.
pub open spec fn digit_char(d: nat) -> char {
    (('0' as u32) + d) as char
}

/// The decimal form of a number, with no sign and no leading zero.
pub open spec fn decimal(n: nat) -> Seq<char>
    decreases n,
{
    if n < 10 {
        seq![digit_char(n)]
    } else {
        decimal(n / 10).push(digit_char(n % 10))
    }
}

/// The characters of a string slice, in order.
pub fn chars_of(s: &str) -> (out: Vec<char>)
    ensures
        out@ == s@,
{
    let mut out: Vec<char> = Vec::new();
    for c in it: s.chars()
        invariant
            out@ == it.seq().take(it.index() as int),
            it.seq() == s@,
    {
        out.push(c);
    }
    out
}

/// `String::push`: the character joins the end of the string.
#[verifier::external_body]
pub(crate) fn push_char(s: &mut String, c: char)
    ensures
        final(s)@ == old(s)@.push(c),
{
    s.push(c);
}

/// A string made of the characters given.
pub fn string_of(v: &[char]) -> (out: String)
    ensures
        out@ == v@,
{
    let mut out = String::new();
    let mut i: usize = 0;
    while i < v.len()
        invariant
            0 <= i <= v@.len(),
            out@ == v@.subrange(0, i as int),
        decreases v@.len() - i,
    {
        push_char(&mut out, v[i]);
        i = i + 1;
        assert(out@ == v@.subrange(0, i as int));
    }
    assert(v@.subrange(0, v@.len() as int) == v@);
    out
}

/// Append characters to a vector.
pub fn extend(out: &mut Vec<char>, v: &[char])
    ensures
        final(out)@ == old(out)@ + v@,
{
    let mut i: usize = 0;
    while i < v.len()
        invariant
            0 <= i <= v@.len(),
            out@ == old(out)@ + v@.subrange(0, i as int),
        decreases v@.len() - i,
    {
        out.push(v[i]);
        i = i + 1;
        assert(out@ == old(out)@ + v@.subrange(0, i as int));
    }
    assert(v@.subrange(0, v@.len() as int) == v@);
}

/// Append the characters of a string slice to a vector.
pub fn extend_str(out: &mut Vec<char>, s: &str)
    ensures
        final(out)@ == old(out)@ + s@,
{
    let v = chars_of(s);
    extend(out, v.as_slice());
}

/// The characters between two positions.
pub fn slice(v: &[char], from: usize, to: usize) -> (out: Vec<char>)
    requires
        from <= to <= v@.len(),
    ensures
        out@ == v@.subrange(from as int, to as int),
{
    let mut out: Vec<char> = Vec::new();
    let mut i = from;
    while i < to
        invariant
            from <= i <= to,
            to <= v@.len(),
            out@ == v@.subrange(from as int, i as int),
        decreases to - i,
    {
        out.push(v[i]);
        i = i + 1;
        assert(out@ == v@.subrange(from as int, i as int));
    }
    out
}

/// Whether `s` begins with `p`.
pub fn has_prefix(s: &[char], p: &[char]) -> (b: bool)
    ensures
        b == starts_with(s@, p@),
{
    if p.len() > s.len() {
        return false;
    }
    let mut i: usize = 0;
    while i < p.len()
        invariant
            p@.len() <= s@.len(),
            0 <= i <= p@.len(),
            forall|j: int| 0 <= j < i ==> s@[j] == p@[j],
        decreases p@.len() - i,
    {
        if s[i] != p[i] {
            assert(s@.subrange(0, p@.len() as int)[i as int] != p@[i as int]);
            return false;
        }
        i = i + 1;
    }
    assert(s@.subrange(0, p@.len() as int) =~= p@);
    true
}

/// Whether `s` begins with the string slice `p`.
pub fn has_prefix_str(s: &[char], p: &str) -> (b: bool)
    ensures
        b == starts_with(s@, p@),
{
    let pv = chars_of(p);
    has_prefix(s, pv.as_slice())
}

/// Whether `s` ends with `p`.
pub fn has_suffix(s: &[char], p: &[char]) -> (b: bool)
    ensures
        b == ends_with(s@, p@),
{
    if p.len() > s.len() {
        return false;
    }
    let n = s.len();
    let off = n - p.len();
    let mut i: usize = 0;
    while i < p.len()
        invariant
            p@.len() <= s@.len(),
            off == s@.len() - p@.len(),
            off + p@.len() == s@.len(),
            n == s@.len(),
            0 <= i <= p@.len(),
            forall|j: int| 0 <= j < i ==> s@[off + j] == p@[j],
        decreases p@.len() - i,
    {
        if s[off + i] != p[i] {
            assert(s@.subrange(off as int, s@.len() as int)[i as int] != p@[i as int]);
            return false;
        }
        i = i + 1;
    }
    assert(s@.subrange(off as int, s@.len() as int) =~= p@);
    true
}

/// `s` with the prefix `p` cut off, when it has it.
pub fn strip_prefix(s: &[char], p: &str) -> (out: Option<Vec<char>>)
    ensures
        out is Some <==> starts_with(s@, p@),
        out matches Some(rest) ==> rest@ == after(s@, p@),
{
    let pv = chars_of(p);
    if has_prefix(s, pv.as_slice()) {
        Some(slice(s, pv.len(), s.len()))
    } else {
        None
    }
}

/// Whether `c` is white space, as `char::is_whitespace` says.
pub fn is_whitespace(c: char) -> (b: bool)
    ensures
        b == is_ws(c),
{
    c == '\t' || c == '\n' || c == '\u{0B}' || c == '\u{0C}' || c == '\r' || c == ' '
        || c == '\u{85}' || c == '\u{A0}' || c == '\u{1680}'
        || ('\u{2000}' <= c && c <= '\u{200A}')
        || c == '\u{2028}' || c == '\u{2029}' || c == '\u{202F}' || c == '\u{205F}'
        || c == '\u{3000}'
}

/// Where the text ends once the white space at its end is left out.
pub fn trim_end_len(s: &[char], to: usize) -> (n: usize)
    requires
        to <= s@.len(),
    ensures
        n <= to,
        s@.subrange(0, n as int) == trim_end(s@.subrange(0, to as int)),
    decreases to,
{
    if to > 0 && is_whitespace(s[to - 1]) {
        assert(s@.subrange(0, to as int).drop_last() == s@.subrange(0, to - 1));
        trim_end_len(s, to - 1)
    } else {
        to
    }
}

/// `s` without the white space at its end.
pub fn trim_end_chars(s: &[char]) -> (out: Vec<char>)
    ensures
        out@ == trim_end(s@),
{
    let n = trim_end_len(s, s.len());
    assert(s@.subrange(0, s@.len() as int) == s@);
    slice(s, 0, n)
}

/// `s` without the white space at its start.
pub fn trim_start_chars(s: &[char]) -> (out: Vec<char>)
    ensures
        out@ == trim_start(s@),
{
    let mut i: usize = 0;
    assert(s@.subrange(0, s@.len() as int) == s@);
    while i < s.len() && is_whitespace(s[i])
        invariant
            0 <= i <= s@.len(),
            trim_start(s@) == trim_start(s@.subrange(i as int, s@.len() as int)),
        decreases s@.len() - i,
    {
        assert(s@.subrange(i as int, s@.len() as int).drop_first() == s@.subrange(
            i + 1,
            s@.len() as int,
        ));
        i = i + 1;
    }
    assert(s@.subrange(0, s@.len() as int) == s@);
    slice(s, i, s.len())
}

/// `s` without white space at either end.
pub fn trim_chars(s: &[char]) -> (out: Vec<char>)
    ensures
        out@ == trim(s@),
{
    let a = trim_start_chars(s);
    trim_end_chars(a.as_slice())
}

/// `s` without the copies of `c` at its end.
pub fn trim_end_matching(s: &[char], c: char) -> (out: Vec<char>)
    ensures
        out@ == trim_end_char(s@, c),
{
    let mut n = s.len();
    assert(s@.subrange(0, s@.len() as int) == s@);
    while n > 0 && s[n - 1] == c
        invariant
            n <= s@.len(),
            trim_end_char(s@, c) == trim_end_char(s@.subrange(0, n as int), c),
        decreases n,
    {
        assert(s@.subrange(0, n as int).drop_last() == s@.subrange(0, n - 1));
        n = n - 1;
    }
    assert(s@.subrange(0, s@.len() as int) == s@);
    slice(s, 0, n)
}

/// `s` without the copies of `c` at its start.
pub fn trim_start_matching(s: &[char], c: char) -> (out: Vec<char>)
    ensures
        out@ == trim_start_char(s@, c),
{
    let mut i: usize = 0;
    assert(s@.subrange(0, s@.len() as int) == s@);
    while i < s.len() && s[i] == c
        invariant
            0 <= i <= s@.len(),
            trim_start_char(s@, c) == trim_start_char(s@.subrange(i as int, s@.len() as int), c),
        decreases s@.len() - i,
    {
        assert(s@.subrange(i as int, s@.len() as int).drop_first() == s@.subrange(
            i + 1,
            s@.len() as int,
        ));
        i = i + 1;
    }
    assert(s@.subrange(0, s@.len() as int) == s@);
    slice(s, i, s.len())
}

/// The pieces of `s` between the copies of `sep`.
pub fn split_chars(s: &[char], sep: char) -> (out: Vec<Vec<char>>)
    ensures
        out@.len() == split(s@, sep).len(),
        out@.len() >= 1,
        forall|i: int| 0 <= i < out@.len() ==> #[trigger] out@[i]@ == split(s@, sep)[i],
{
    let mut done: Vec<Vec<char>> = Vec::new();
    let mut cur: Vec<char> = Vec::new();
    let mut i: usize = 0;
    while i < s.len()
        invariant
            0 <= i <= s@.len(),
            done@.len() + 1 == split(s@.subrange(0, i as int), sep).len(),
            forall|k: int|
                0 <= k < done@.len() ==> #[trigger] done@[k]@ == split(
                    s@.subrange(0, i as int),
                    sep,
                )[k],
            cur@ == split(s@.subrange(0, i as int), sep).last(),
        decreases s@.len() - i,
    {
        let ghost before = s@.subrange(0, i as int);
        assert(s@.subrange(0, i + 1).drop_last() == before);
        if s[i] == sep {
            let full = cur;
            done.push(full);
            cur = Vec::new();
        } else {
            cur.push(s[i]);
        }
        i = i + 1;
    }
    assert(s@.subrange(0, s@.len() as int) == s@);
    proof {
        lemma_split_nonempty(s@, sep);
    }
    done.push(cur);
    done
}

/// The first place `p` occurs in `s`.
pub fn find_chars(s: &[char], p: &[char]) -> (out: Option<usize>)
    ensures
        out matches Some(i) ==> find(s@, p@) == Some(i as int) && occurs_at(s@, p@, i as int),
        out is None ==> find(s@, p@) is None,
{
    reveal(find);
    if p.len() > s.len() {
        assert(forall|i: int| !occurs_at(s@, p@, i));
        return None;
    }
    let last = s.len() - p.len();
    let mut i: usize = 0;
    loop
        invariant_except_break
            last == s@.len() - p@.len(),
            0 <= i <= last,
            forall|j: int| 0 <= j < i ==> !occurs_at(s@, p@, j),
        ensures
            last == s@.len() - p@.len(),
            forall|j: int| 0 <= j <= last ==> !occurs_at(s@, p@, j),
        decreases last - i,
    {
        let rest = slice(s, i, s.len());
        assert(rest@.subrange(0, p@.len() as int) == s@.subrange(i as int, i + p@.len()));
        if has_prefix(rest.as_slice(), p) {
            assert(occurs_at(s@, p@, i as int));
            let ghost w = choose|k: int|
                occurs_at(s@, p@, k) && forall|j: int| 0 <= j < k ==> !occurs_at(s@, p@, j);
            assert(w == i);
            reveal(find);
            assert(find(s@, p@) == Some(i as int));
            return Some(i);
        }
        if i == last {
            break;
        }
        i = i + 1;
    }
    assert forall|j: int| !occurs_at(s@, p@, j) by {
        if 0 <= j && j + p@.len() <= s@.len() {
            assert(j <= last);
        }
    }
    None
}

/// Whether every character is an ASCII digit.
pub fn digits_only(s: &[char]) -> (b: bool)
    ensures
        b == all_digits(s@),
{
    let mut i: usize = 0;
    while i < s.len()
        invariant
            0 <= i <= s@.len(),
            forall|j: int| 0 <= j < i ==> is_digit(#[trigger] s@[j]),
        decreases s@.len() - i,
    {
        if !('0' <= s[i] && s[i] <= '9') {
            return false;
        }
        i = i + 1;
    }
    true
}

proof fn lemma_digits_value_bound(s: Seq<char>)
    requires
        all_digits(s),
    ensures
        digits_value(s) < pow10(s.len()),
    decreases s.len(),
{
    if s.len() > 0 {
        lemma_digits_value_bound(s.drop_last());
        assert(is_digit(s[s.len() - 1]));
    }
}

/// Ten to the power `n`.
pub open spec fn pow10(n: nat) -> nat
    decreases n,
{
    if n == 0 {
        1
    } else {
        10 * pow10((n - 1) as nat)
    }
}

/// Read a number the way `str::parse::<usize>` does.
pub fn parse_usize_chars(s: &[char]) -> (out: Option<usize>)
    ensures
        out == parse_usize(s@),
{
    let body = if s.len() > 0 && s[0] == '+' {
        slice(s, 1, s.len())
    } else {
        slice(s, 0, s.len())
    };
    assert(s@.subrange(0, s@.len() as int) == s@);
    assert(s@.len() > 0 ==> s@.subrange(1, s@.len() as int) == s@.drop_first());
    if body.len() == 0 || !digits_only(body.as_slice()) {
        return None;
    }
    let mut value: usize = 0;
    let mut i: usize = 0;
    while i < body.len()
        invariant
            0 <= i <= body@.len(),
            all_digits(body@),
            body@ == (if s@.len() > 0 && s@[0] == '+' { s@.drop_first() } else { s@ }),
            value == digits_value(body@.subrange(0, i as int)),
        decreases body@.len() - i,
    {
        let ghost pre = body@.subrange(0, i as int);
        assert(body@.subrange(0, i + 1).drop_last() == pre);
        assert(is_digit(body@[i as int]));
        let d = (body[i] as u32 - '0' as u32) as usize;
        assert(digits_value(body@.subrange(0, i + 1)) == value * 10 + d);
        if value > (usize::MAX - d) / 10 {
            assert(value * 10 + d > usize::MAX) by (nonlinear_arith)
                requires
                    value > (usize::MAX - d) / 10,
                    d < 10,
            ;
            proof {
                // Every longer prefix only grows, so the whole run does not fit.
                lemma_digits_prefix_grows(body@, i as int + 1);
                let sb = if s@.len() > 0 && s@[0] == '+' { s@.drop_first() } else { s@ };
                assert(sb == body@);
                assert(digits_value(sb) > usize::MAX);
            }
            return None;
        }
        value = value * 10 + d;
        i = i + 1;
    }
    assert(body@.subrange(0, body@.len() as int) == body@);
    Some(value)
}

pub proof fn lemma_digits_prefix_grows(s: Seq<char>, k: int)
    requires
        all_digits(s),
        0 <= k <= s.len(),
    ensures
        digits_value(s.subrange(0, k)) <= digits_value(s),
    decreases s.len() - k,
{
    if k < s.len() {
        lemma_digits_prefix_grows(s, k + 1);
        assert(s.subrange(0, k + 1).drop_last() == s.subrange(0, k));
    } else {
        assert(s.subrange(0, k) == s);
    }
}

/// The decimal form of a number.
pub fn decimal_of(n: usize) -> (out: Vec<char>)
    ensures
        out@ == decimal(n as nat),
    decreases n,
{
    if n < 10 {
        let c = char_of_digit(n as u32);
        let mut out: Vec<char> = Vec::new();
        out.push(c);
        out
    } else {
        let mut out = decimal_of(n / 10);
        out.push(char_of_digit((n % 10) as u32));
        out
    }
}

/// The decimal digit of a number below ten.
pub fn char_of_digit(d: u32) -> (c: char)
    requires
        d < 10,
    ensures
        c == digit_char(d as nat),
{
    if d == 0 { '0' }
    else if d == 1 { '1' }
    else if d == 2 { '2' }
    else if d == 3 { '3' }
    else if d == 4 { '4' }
    else if d == 5 { '5' }
    else if d == 6 { '6' }
    else if d == 7 { '7' }
    else if d == 8 { '8' }
    else { '9' }
}

/// Whether two character sequences are the same.
pub fn same(a: &[char], b: &[char]) -> (r: bool)
    ensures
        r == (a@ == b@),
{
    if a.len() != b.len() {
        return false;
    }
    let mut i: usize = 0;
    while i < a.len()
        invariant
            a@.len() == b@.len(),
            0 <= i <= a@.len(),
            forall|j: int| 0 <= j < i ==> a@[j] == b@[j],
        decreases a@.len() - i,
    {
        if a[i] != b[i] {
            return false;
        }
        i = i + 1;
    }
    assert(a@ =~= b@);
    true
}

/// Whether two strings hold the same text.
pub fn same_str(a: &str, b: &str) -> (r: bool)
    ensures
        r == (a@ == b@),
{
    let x = chars_of(a);
    let y = chars_of(b);
    same(x.as_slice(), y.as_slice())
}

/// A copy of a string.
pub fn copy_string(s: &String) -> (out: String)
    ensures
        out@ == s@,
{
    s.clone()
}

/// A copy of an optional string.
pub fn copy_opt(s: &Option<String>) -> (out: Option<String>)
    ensures
        crate::model::opt_view(out) == crate::model::opt_view(*s),
{
    match s {
        Some(v) => Some(v.clone()),
        None => None,
    }
}


/// A piece of text without the one `\r` that may end it.
pub open spec fn drop_cr(s: Seq<char>) -> Seq<char> {
    if s.len() > 0 && s.last() == '\r' {
        s.drop_last()
    } else {
        s
    }
}

/// The lines of a text, the way `str::lines` reads them: cut at `\n`, a
/// `\r` before the `\n` dropped, and no empty line after a final `\n`.
pub open spec fn lines(s: Seq<char>) -> Seq<Seq<char>> {
    let pieces = split(s, '\n');
    let last = pieces.len() - 1;
    let body = Seq::new(last as nat, |i: int| drop_cr(pieces[i]));
    if pieces[last].len() == 0 {
        body
    } else {
        body.push(pieces[last])
    }
}

/// The lines of a text.
pub fn lines_of(s: &[char]) -> (out: Vec<Vec<char>>)
    ensures
        out@.len() == lines(s@).len(),
        forall|i: int| 0 <= i < out@.len() ==> #[trigger] out@[i]@ == lines(s@)[i],
{
    let pieces = split_chars(s, '\n');
    let ghost ps = split(s@, '\n');
    let last = pieces.len() - 1;
    let mut out: Vec<Vec<char>> = Vec::new();
    let mut i: usize = 0;
    while i < last
        invariant
            0 <= i <= last,
            last == pieces@.len() - 1,
            pieces@.len() == ps.len(),
            forall|k: int| 0 <= k < pieces@.len() ==> #[trigger] pieces@[k]@ == ps[k],
            out@.len() == i,
            forall|k: int| 0 <= k < i ==> #[trigger] out@[k]@ == drop_cr(ps[k]),
        decreases last - i,
    {
        let p = &pieces[i];
        let n = p.len();
        if n > 0 && p[n - 1] == '\r' {
            out.push(slice(p.as_slice(), 0, n - 1));
        } else {
            out.push(slice(p.as_slice(), 0, n));
        }
        proof {
            assert(p@.subrange(0, n as int) == p@);
        }
        i = i + 1;
    }
    if pieces[last].len() > 0 {
        let p = &pieces[last];
        out.push(slice(p.as_slice(), 0, p.len()));
        proof {
            assert(p@.subrange(0, p@.len() as int) == p@);
        }
    }
    proof {
        let l = lines(s@);
        assert(out@.len() == l.len());
    }
    out
}

/// The words of a text, the way `split_whitespace` reads them.
pub open spec fn words(s: Seq<char>) -> Seq<Seq<char>>
    decreases s.len(),
{
    let t = trim_start(s);
    if t.len() == 0 {
        Seq::empty()
    } else {
        let n = word_len(t);
        if n == 0 || n > t.len() || t.len() > s.len() {
            Seq::empty()
        } else {
            seq![t.subrange(0, n as int)] + words(t.subrange(n as int, t.len() as int))
        }
    }
}

/// How many characters the first word of `s` has, `s` starting on it.
pub open spec fn word_len(s: Seq<char>) -> nat
    decreases s.len(),
{
    if s.len() == 0 || is_ws(s[0]) {
        0
    } else {
        1 + word_len(s.drop_first())
    }
}

/// Trimming never makes a text longer.
pub proof fn lemma_trim_start_len(s: Seq<char>)
    ensures
        trim_start(s).len() <= s.len(),
        trim_start(s).len() > 0 ==> !is_ws(trim_start(s)[0]),
    decreases s.len(),
{
    if s.len() > 0 && is_ws(s[0]) {
        lemma_trim_start_len(s.drop_first());
    }
}

/// A word is never longer than its text.
pub proof fn lemma_word_len(s: Seq<char>)
    ensures
        word_len(s) <= s.len(),
        s.len() > 0 && !is_ws(s[0]) ==> word_len(s) >= 1,
    decreases s.len(),
{
    if s.len() > 0 && !is_ws(s[0]) {
        lemma_word_len(s.drop_first());
    }
}

/// The words of a text.
pub fn words_of(s: &[char]) -> (out: Vec<Vec<char>>)
    ensures
        out@.len() == words(s@).len(),
        forall|i: int| 0 <= i < out@.len() ==> #[trigger] out@[i]@ == words(s@)[i],
    decreases s@.len(),
{
    let t = trim_start_chars(s);
    proof {
        lemma_trim_start_len(s@);
    }
    if t.len() == 0 {
        return Vec::new();
    }
    let mut n: usize = 0;
    assert(t@.subrange(0, t@.len() as int) == t@);
    while n < t.len() && !is_whitespace(t[n])
        invariant
            0 <= n <= t@.len(),
            word_len(t@) == n + word_len(t@.subrange(n as int, t@.len() as int)),
        decreases t@.len() - n,
    {
        assert(t@.subrange(n as int, t@.len() as int).drop_first() == t@.subrange(
            n + 1,
            t@.len() as int,
        ));
        n = n + 1;
    }
    assert(word_len(t@.subrange(n as int, t@.len() as int)) == 0);
    proof {
        lemma_word_len(t@);
    }
    let first = slice(t.as_slice(), 0, n);
    let rest = slice(t.as_slice(), n, t.len());
    let tail = words_of(rest.as_slice());
    let mut out: Vec<Vec<char>> = Vec::new();
    out.push(first);
    let mut i: usize = 0;
    while i < tail.len()
        invariant
            0 <= i <= tail@.len(),
            out@.len() == i + 1,
            out@[0]@ == t@.subrange(0, n as int),
            forall|k: int| 0 <= k < i ==> #[trigger] out@[k + 1]@ == tail@[k]@,
        decreases tail@.len() - i,
    {
        let w = slice(tail[i].as_slice(), 0, tail[i].len());
        proof {
            assert(tail@[i as int]@.subrange(0, tail@[i as int]@.len() as int) == tail@[i as int]@);
        }
        out.push(w);
        i = i + 1;
    }
    proof {
        let ws = words(s@);
        assert(ws == seq![t@.subrange(0, n as int)] + words(rest@));
        assert forall|k: int| 0 <= k < out@.len() implies #[trigger] out@[k]@ == ws[k] by {
            if k > 0 {
                assert(out@[(k - 1) + 1]@ == tail@[k - 1]@);
            }
        }
    }
    out
}

/// The view of a vector of runs of characters.
pub open spec fn runs_view(v: Seq<Vec<char>>) -> Seq<Seq<char>> {
    v.map_values(|x: Vec<char>| x@)
}


/// The last place `c` occurs in `s`.
pub open spec fn rfind_char(s: Seq<char>, c: char) -> Option<int>
    decreases s.len(),
{
    if s.len() == 0 {
        None
    } else if s.last() == c {
        Some(s.len() - 1)
    } else {
        rfind_char(s.drop_last(), c)
    }
}

/// The first place `c` occurs in `s`.
pub open spec fn find_char(s: Seq<char>, c: char) -> Option<int>
    decreases s.len(),
{
    if s.len() == 0 {
        None
    } else if s[0] == c {
        Some(0)
    } else {
        match find_char(s.drop_first(), c) {
            Some(i) => Some(i + 1),
            None => None,
        }
    }
}

/// Where `find_char` and `rfind_char` answer, the character is.
pub proof fn lemma_find_char(s: Seq<char>, c: char)
    ensures
        find_char(s, c) matches Some(i) ==> 0 <= i < s.len() && s[i] == c,
        rfind_char(s, c) matches Some(i) ==> 0 <= i < s.len() && s[i] == c,
    decreases s.len(),
{
    if s.len() > 0 {
        lemma_find_char(s.drop_first(), c);
        lemma_find_char(s.drop_last(), c);
    }
}

/// The first place `c` occurs in `s`.
pub fn find_char_in(s: &[char], c: char) -> (out: Option<usize>)
    ensures
        match out {
            Some(i) => find_char(s@, c) == Some(i as int) && i < s@.len() && s@[i as int] == c,
            None => find_char(s@, c) is None,
        },
{
    let mut i: usize = 0;
    assert(s@.subrange(0, s@.len() as int) == s@);
    while i < s.len()
        invariant
            0 <= i <= s@.len(),
            forall|j: int| 0 <= j < i ==> s@[j] != c,
            find_char(s@, c) == match find_char(s@.subrange(i as int, s@.len() as int), c) {
                Some(k) => Some(k + i),
                None => None,
            },
        decreases s@.len() - i,
    {
        let ghost rest = s@.subrange(i as int, s@.len() as int);
        assert(rest.drop_first() == s@.subrange(i + 1, s@.len() as int));
        if s[i] == c {
            return Some(i);
        }
        i = i + 1;
    }
    None
}

/// The last place `c` occurs in `s`.
pub fn rfind_char_in(s: &[char], c: char) -> (out: Option<usize>)
    ensures
        match out {
            Some(i) => rfind_char(s@, c) == Some(i as int) && i < s@.len() && s@[i as int] == c,
            None => rfind_char(s@, c) is None,
        },
{
    let mut n = s.len();
    assert(s@.subrange(0, s@.len() as int) == s@);
    while n > 0
        invariant
            n <= s@.len(),
            rfind_char(s@, c) == rfind_char(s@.subrange(0, n as int), c),
        decreases n,
    {
        let ghost pre = s@.subrange(0, n as int);
        assert(pre.drop_last() == s@.subrange(0, n - 1));
        if s[n - 1] == c {
            return Some(n - 1);
        }
        n = n - 1;
    }
    None
}

/// `s` without the copies of `p` at its end, the way `trim_end_matches`
/// removes a suffix.
pub open spec fn trim_end_seq(s: Seq<char>, p: Seq<char>) -> Seq<char>
    decreases s.len(),
{
    if p.len() > 0 && ends_with(s, p) {
        trim_end_seq(s.subrange(0, s.len() - p.len()), p)
    } else {
        s
    }
}

/// `s` without the copies of the string `p` at its end.
pub fn trim_end_str(s: &[char], p: &str) -> (out: Vec<char>)
    ensures
        out@ == trim_end_seq(s@, p@),
{
    let pv = chars_of(p);
    let mut cur = slice(s, 0, s.len());
    assert(s@.subrange(0, s@.len() as int) == s@);
    while pv.len() > 0 && has_suffix(cur.as_slice(), pv.as_slice())
        invariant
            pv@ == p@,
            trim_end_seq(s@, p@) == trim_end_seq(cur@, p@),
        decreases cur@.len(),
    {
        let n = cur.len() - pv.len();
        cur = slice(cur.as_slice(), 0, n);
    }
    cur
}

/// What `str::to_lowercase` answers: the Unicode lowercase of the text.
pub uninterp spec fn lowercase(s: Seq<char>) -> Seq<char>;

/// The lowercase of a text.
///
/// Calls `str::to_lowercase`. The contract names the answer `lowercase`;
/// the Unicode case tables are left to std.
#[verifier::external_body]
pub(crate) fn to_lower(s: &str) -> (out: String)
    ensures
        out@ == lowercase(s@),
{
    s.to_lowercase()
}

/// The lowercase of a run of characters.
pub fn lower_chars(s: &[char]) -> (out: Vec<char>)
    ensures
        out@ == lowercase(s@),
{
    let t = string_of(s);
    let l = to_lower(t.as_str());
    chars_of(l.as_str())
}

} // verus!
