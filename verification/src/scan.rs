//! Endpoint discovery: scanning the external tool's status output for the
//! first `IPv4:port` token.
//!
//! A token is four octets of one to three digits separated by dots, a colon,
//! and a non-empty port of digits, delimited on both sides by a word
//! boundary. The scanner returns the leftmost such token.

use vstd::prelude::*;

use crate::text::chars_vec;
use vstd::string::StrSliceExecFns;

verus! {

/// An ASCII decimal digit.
pub open spec fn is_digit(c: char) -> bool {
    '0' as u32 <= c as u32 <= '9' as u32
}

/// A word character: letters, digits and underscore, as in a word boundary.
pub open spec fn is_word_char(c: char) -> bool {
    ||| is_digit(c)
    ||| 'a' as u32 <= c as u32 <= 'z' as u32
    ||| 'A' as u32 <= c as u32 <= 'Z' as u32
    ||| c == '_'
}

/// Every character of the sequence is a digit.
pub open spec fn all_digits(s: Seq<char>) -> bool {
    forall|k: int| 0 <= k < s.len() ==> is_digit(#[trigger] s[k])
}

/// An address octet: one to three digits.
pub open spec fn is_octet(s: Seq<char>) -> bool {
    1 <= s.len() <= 3 && all_digits(s)
}

/// The sequence splits at these dot and colon positions into four octets
/// and a non-empty digit port.
pub open spec fn token_shape(s: Seq<char>, d1: int, d2: int, d3: int, co: int) -> bool {
    &&& 0 < d1 < d2 < d3 < co
    &&& co + 1 < s.len()
    &&& s[d1] == '.'
    &&& s[d2] == '.'
    &&& s[d3] == '.'
    &&& s[co] == ':'
    &&& is_octet(s.subrange(0, d1))
    &&& is_octet(s.subrange(d1 + 1, d2))
    &&& is_octet(s.subrange(d2 + 1, d3))
    &&& is_octet(s.subrange(d3 + 1, co))
    &&& all_digits(s.subrange(co + 1, s.len() as int))
}

/// The sequence is exactly one `IPv4:port` token.
pub open spec fn is_endpoint_token(s: Seq<char>) -> bool {
    exists|d1: int, d2: int, d3: int, co: int| token_shape(s, d1, d2, d3, co)
}

/// The text holds a token at `[i, j)`, delimited by word boundaries.
pub open spec fn token_match_at(t: Seq<char>, i: int, j: int) -> bool {
    &&& 0 <= i < j <= t.len()
    &&& is_endpoint_token(t.subrange(i, j))
    &&& (i == 0 || !is_word_char(t[i - 1]))
    &&& (j == t.len() || !is_word_char(t[j]))
}

/// Where the run of digits starting at `pos` ends.
pub open spec fn run_end(t: Seq<char>, pos: int) -> int
    decreases t.len() - pos when 0 <= pos <= t.len()
{
    if pos < t.len() && is_digit(t[pos]) {
        run_end(t, pos + 1)
    } else {
        pos
    }
}

proof fn lemma_run_end_props(t: Seq<char>, pos: int)
    requires
        0 <= pos <= t.len(),
    ensures
        pos <= run_end(t, pos) <= t.len(),
        forall|k: int| pos <= k < run_end(t, pos) ==> is_digit(#[trigger] t[k]),
        run_end(t, pos) == t.len() || !is_digit(t[run_end(t, pos)]),
    decreases t.len() - pos,
{
    if pos < t.len() && is_digit(t[pos]) {
        lemma_run_end_props(t, pos + 1);
    }
}

proof fn lemma_run_end_unique(t: Seq<char>, pos: int, q: int)
    requires
        0 <= pos <= q <= t.len(),
        forall|k: int| pos <= k < q ==> is_digit(#[trigger] t[k]),
        q == t.len() || !is_digit(t[q]),
    ensures
        run_end(t, pos) == q,
    decreases q - pos,
{
    if pos == q {
    } else {
        lemma_run_end_unique(t, pos + 1, q);
    }
}

/// Where a token starting at `i` must end, or nothing when no token starts
/// there: each octet is a maximal digit run followed by its separator, and
/// the port is the maximal digit run after the colon, which must end at a
/// word boundary.
pub open spec fn parse_at(t: Seq<char>, i: int) -> Option<int> {
    let e1 = run_end(t, i);
    if e1 == i || e1 > i + 3 || e1 >= t.len() || t[e1] != '.' {
        None
    } else {
        let e2 = run_end(t, e1 + 1);
        if e2 == e1 + 1 || e2 > e1 + 4 || e2 >= t.len() || t[e2] != '.' {
            None
        } else {
            let e3 = run_end(t, e2 + 1);
            if e3 == e2 + 1 || e3 > e2 + 4 || e3 >= t.len() || t[e3] != '.' {
                None
            } else {
                let e4 = run_end(t, e3 + 1);
                if e4 == e3 + 1 || e4 > e3 + 4 || e4 >= t.len() || t[e4] != ':' {
                    None
                } else {
                    let ep = run_end(t, e4 + 1);
                    if ep == e4 + 1 || (ep < t.len() && is_word_char(t[ep])) {
                        None
                    } else {
                        Some(ep)
                    }
                }
            }
        }
    }
}

/// A successful parse is a token with a right word boundary.
proof fn lemma_parse_sound(t: Seq<char>, i: int, j: int)
    requires
        0 <= i <= t.len(),
        parse_at(t, i) == Some(j),
    ensures
        i < j <= t.len(),
        is_endpoint_token(t.subrange(i, j)),
        j == t.len() || !is_word_char(t[j]),
{
    let e1 = run_end(t, i);
    let e2 = run_end(t, e1 + 1);
    let e3 = run_end(t, e2 + 1);
    let e4 = run_end(t, e3 + 1);
    let ep = run_end(t, e4 + 1);
    lemma_run_end_props(t, i);
    lemma_run_end_props(t, e1 + 1);
    lemma_run_end_props(t, e2 + 1);
    lemma_run_end_props(t, e3 + 1);
    lemma_run_end_props(t, e4 + 1);
    assert(j == ep);
    let s = t.subrange(i, j);
    let d1 = e1 - i;
    let d2 = e2 - i;
    let d3 = e3 - i;
    let co = e4 - i;
    assert(s.subrange(0, d1) =~= t.subrange(i, e1));
    assert(s.subrange(d1 + 1, d2) =~= t.subrange(e1 + 1, e2));
    assert(s.subrange(d2 + 1, d3) =~= t.subrange(e2 + 1, e3));
    assert(s.subrange(d3 + 1, co) =~= t.subrange(e3 + 1, e4));
    assert(s.subrange(co + 1, s.len() as int) =~= t.subrange(e4 + 1, ep));
    assert(token_shape(s, d1, d2, d3, co));
}

/// Any token with a right word boundary starting at `i` ends exactly where
/// the parse says: the parse misses nothing.
proof fn lemma_parse_complete(t: Seq<char>, i: int, j: int)
    requires
        0 <= i < j <= t.len(),
        is_endpoint_token(t.subrange(i, j)),
        j == t.len() || !is_word_char(t[j]),
    ensures
        parse_at(t, i) == Some(j),
{
    let s = t.subrange(i, j);
    let (d1, d2, d3, co) = choose|d1: int, d2: int, d3: int, co: int|
        token_shape(s, d1, d2, d3, co);
    assert(s.subrange(0, d1) =~= t.subrange(i, i + d1));
    assert(s.subrange(d1 + 1, d2) =~= t.subrange(i + d1 + 1, i + d2));
    assert(s.subrange(d2 + 1, d3) =~= t.subrange(i + d2 + 1, i + d3));
    assert(s.subrange(d3 + 1, co) =~= t.subrange(i + d3 + 1, i + co));
    assert(s.subrange(co + 1, s.len() as int) =~= t.subrange(i + co + 1, j));
    // Each octet's digits stop at the separator that follows them.
    assert forall|k: int| i <= k < i + d1 implies is_digit(#[trigger] t[k]) by {
        assert(t[k] == s.subrange(0, d1)[k - i]);
    }
    assert(t[i + d1] == '.');
    lemma_run_end_unique(t, i, i + d1);
    assert forall|k: int| i + d1 + 1 <= k < i + d2 implies is_digit(#[trigger] t[k]) by {
        assert(t[k] == s.subrange(d1 + 1, d2)[k - (i + d1 + 1)]);
    }
    assert(t[i + d2] == '.');
    lemma_run_end_unique(t, i + d1 + 1, i + d2);
    assert forall|k: int| i + d2 + 1 <= k < i + d3 implies is_digit(#[trigger] t[k]) by {
        assert(t[k] == s.subrange(d2 + 1, d3)[k - (i + d2 + 1)]);
    }
    assert(t[i + d3] == '.');
    lemma_run_end_unique(t, i + d2 + 1, i + d3);
    assert forall|k: int| i + d3 + 1 <= k < i + co implies is_digit(#[trigger] t[k]) by {
        assert(t[k] == s.subrange(d3 + 1, co)[k - (i + d3 + 1)]);
    }
    assert(t[i + co] == ':');
    lemma_run_end_unique(t, i + d3 + 1, i + co);
    // The port's digits stop at the right word boundary.
    assert forall|k: int| i + co + 1 <= k < j implies is_digit(#[trigger] t[k]) by {
        assert(t[k] == s.subrange(co + 1, s.len() as int)[k - (i + co + 1)]);
    }
    assert(j == t.len() || !is_digit(t[j]));
    lemma_run_end_unique(t, i + co + 1, j);
}

fn exec_is_digit(c: char) -> (r: bool)
    ensures
        r == is_digit(c),
{
    let u = c as u32;
    48 <= u && u <= 57
}

fn exec_is_word_char(c: char) -> (r: bool)
    ensures
        r == is_word_char(c),
{
    let u = c as u32;
    (48 <= u && u <= 57) || (97 <= u && u <= 122) || (65 <= u && u <= 90) || u == 95
}

/// Walks to the end of the digit run starting at `pos`.
fn digit_run_end(cs: &Vec<char>, pos: usize) -> (r: usize)
    requires
        pos <= cs@.len(),
    ensures
        r == run_end(cs@, pos as int),
        pos <= r <= cs@.len(),
    {
    let n = cs.len();
    let mut p = pos;
    while p < n && exec_is_digit(cs[p])
        invariant
            pos <= p <= n,
            n == cs@.len(),
            run_end(cs@, p as int) == run_end(cs@, pos as int),
        decreases n - p,
    {
        p = p + 1;
    }
    proof {
        lemma_run_end_props(cs@, pos as int);
    }
    p
}

/// Tries to read a token starting at `i`; returns where it ends.
fn try_match_at(cs: &Vec<char>, i: usize) -> (r: Option<usize>)
    requires
        i < cs@.len(),
    ensures
        match r {
            Some(j) => i < j <= cs@.len() && parse_at(cs@, i as int) == Some(j as int),
            None => parse_at(cs@, i as int) is None,
        },
{
    let n = cs.len();
    let e1 = digit_run_end(cs, i);
    if e1 == i || e1 - i > 3 || e1 >= n || cs[e1] != '.' {
        return None;
    }
    let e2 = digit_run_end(cs, e1 + 1);
    if e2 == e1 + 1 || e2 - e1 > 4 || e2 >= n || cs[e2] != '.' {
        return None;
    }
    let e3 = digit_run_end(cs, e2 + 1);
    if e3 == e2 + 1 || e3 - e2 > 4 || e3 >= n || cs[e3] != '.' {
        return None;
    }
    let e4 = digit_run_end(cs, e3 + 1);
    if e4 == e3 + 1 || e4 - e3 > 4 || e4 >= n || cs[e4] != ':' {
        return None;
    }
    let ep = digit_run_end(cs, e4 + 1);
    if ep == e4 + 1 {
        return None;
    }
    if ep < n && exec_is_word_char(cs[ep]) {
        return None;
    }
    Some(ep)
}

/// Finds the leftmost `IPv4:port` token in the text, as endpoint discovery
/// scans the status output of the external tool.
pub fn find_endpoint(text: &str) -> (r: Option<String>)
    ensures
        match r {
            Some(u) => exists|i: int, j: int|
                {
                    &&& token_match_at(text@, i, j)
                    &&& u@ == text@.subrange(i, j)
                    &&& forall|i2: int, j2: int| i2 < i ==> !token_match_at(text@, i2, j2)
                },
            None => forall|i: int, j: int| !token_match_at(text@, i, j),
        },
{
    let cs = chars_vec(text);
    let n = cs.len();
    let mut i: usize = 0;
    while i < n
        invariant
            n == text@.len(),
            cs@ == text@,
            i <= n,
            forall|i2: int, j2: int| i2 < i ==> !token_match_at(text@, i2, j2),
        decreases n - i,
    {
        let boundary_ok = if i == 0 {
            true
        } else {
            !exec_is_word_char(cs[i - 1])
        };
        if boundary_ok {
            match try_match_at(&cs, i) {
                Some(j) => {
                    proof {
                        lemma_parse_sound(text@, i as int, j as int);
                        assert(token_match_at(text@, i as int, j as int));
                    }
                    let token = text.substring_char(i, j).to_owned();
                    return Some(token);
                },
                None => {
                    proof {
                        assert forall|j2: int| !token_match_at(text@, i as int, j2) by {
                            if token_match_at(text@, i as int, j2) {
                                lemma_parse_complete(text@, i as int, j2);
                            }
                        }
                    }
                },
            }
        } else {
            proof {
                assert(forall|j2: int| !token_match_at(text@, i as int, j2));
            }
        }
        i = i + 1;
    }
    proof {
        assert forall|i2: int, j2: int| !token_match_at(text@, i2, j2) by {
            if token_match_at(text@, i2, j2) {
                assert(0 <= i2 < n);
            }
        }
    }
    None
}

} // verus!
