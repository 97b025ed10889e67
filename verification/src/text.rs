//! Character-level text helpers: lowercasing, substring search, and
//! building strings one character at a time.

use vstd::prelude::*;

verus! {

broadcast use vstd::string::group_string_axioms;

/// The Unicode lowercasing of a character sequence, as `str::to_lowercase`
/// computes it.
pub uninterp spec fn lower_of(s: Seq<char>) -> Seq<char>;

/// Relies on str::to_lowercase: the result depends on the characters alone,
/// and an empty string stays empty.
#[verifier::external_body]
pub(crate) fn lowercase(s: &str) -> (r: String)
    ensures
        r@ == lower_of(s@),
        s@.len() == 0 ==> r@.len() == 0,
{
    s.to_lowercase()
}

/// Relies on String::push: it appends exactly the given character.
#[verifier::external_body]
pub(crate) fn push_char(s: &mut String, c: char)
    ensures
        final(s)@ == old(s)@.push(c),
{
    s.push(c)
}

/// The characters of a string slice, as a vector.
pub fn chars_vec(s: &str) -> (r: Vec<char>)
    ensures
        r@ == s@,
{
    let mut v: Vec<char> = Vec::new();
    for c in it: s.chars()
        invariant
            it.seq() == s@,
            v@ == it.seq().take(it.index() as int),
    {
        v.push(c);
    }
    proof {
        assert(v@ =~= s@);
    }
    v
}

/// The pattern occurs in the text starting at position `i`.
pub open spec fn contains_at(t: Seq<char>, p: Seq<char>, i: int) -> bool {
    0 <= i && i + p.len() <= t.len() && t.subrange(i, i + p.len() as int) == p
}

/// The pattern occurs somewhere in the text.
pub open spec fn spec_contains(t: Seq<char>, p: Seq<char>) -> bool {
    exists|i: int| contains_at(t, p, i)
}

/// Whether the pattern occurs anywhere in the text.
pub fn contains_substring(text: &str, pat: &str) -> (r: bool)
    ensures
        r == spec_contains(text@, pat@),
{
    let tv = chars_vec(text);
    let pv = chars_vec(pat);
    let n = tv.len();
    let m = pv.len();
    if m > n {
        proof {
            assert(forall|i: int| !contains_at(text@, pat@, i));
        }
        return false;
    }
    let mut i: usize = 0;
    while i <= n - m
        invariant
            m <= n,
            n == text@.len(),
            m == pat@.len(),
            tv@ == text@,
            pv@ == pat@,
            i <= n - m + 1,
            forall|k: int| 0 <= k < i ==> !contains_at(text@, pat@, k),
        decreases n - m + 1 - i,
    {
        let mut j: usize = 0;
        let mut matched = true;
        while j < m
            invariant
                m <= n,
                n == text@.len(),
                m == pat@.len(),
                tv@ == text@,
                pv@ == pat@,
                i + m <= n,
                j <= m,
                matched <==> (forall|k: int| 0 <= k < j ==> text@[i + k] == pat@[k]),
            decreases m - j,
        {
            if tv[i + j] != pv[j] {
                matched = false;
                j = m;
            } else {
                j = j + 1;
            }
        }
        if matched {
            proof {
                assert(text@.subrange(i as int, i + pat@.len() as int) =~= pat@);
                assert(contains_at(text@, pat@, i as int));
            }
            return true;
        }
        proof {
            assert(!contains_at(text@, pat@, i as int)) by {
                if contains_at(text@, pat@, i as int) {
                    let k = choose|k: int| 0 <= k < m && text@[i + k] != pat@[k];
                    assert(text@.subrange(i as int, i + pat@.len() as int)[k] == text@[i + k]);
                }
            }
        }
        i = i + 1;
    }
    proof {
        assert(forall|k: int| !contains_at(text@, pat@, k));
    }
    false
}

} // verus!
