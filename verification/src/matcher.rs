//! Wildcard matching of concrete subjects against subscription patterns.
//!
//! `*` matches any run of characters (the empty run included, `.` included),
//! `?` matches exactly one character, every other character matches itself.
//! Matching is whole-string: `"message.*"` matches `"message.test"` but not
//! `"test.message"`.

use vstd::prelude::*;

verus! {

use crate::strutil::chars_vec;

/// Does pattern `p` match subject `s`?
pub open spec fn spec_matches(p: Seq<char>, s: Seq<char>) -> bool
    decreases p.len() + s.len(),
{
    if p.len() == 0 {
        s.len() == 0
    } else if p[0] == '*' {
        spec_matches(p.drop_first(), s) || (s.len() > 0 && spec_matches(p, s.drop_first()))
    } else if s.len() == 0 {
        false
    } else {
        (p[0] == '?' || p[0] == s[0]) && spec_matches(p.drop_first(), s.drop_first())
    }
}

fn match_from(p: &Vec<char>, s: &Vec<char>, i: usize, j: usize) -> (r: bool)
    requires
        i <= p.len(),
        j <= s.len(),
    ensures
        r == spec_matches(p@.skip(i as int), s@.skip(j as int)),
    decreases p.len() - i + s.len() - j,
{
    proof {
        if i < p.len() {
            assert(p@.skip(i as int)[0] == p@[i as int]);
            assert(p@.skip(i as int).drop_first() =~= p@.skip(i + 1 as int));
        }
        if j < s.len() {
            assert(s@.skip(j as int)[0] == s@[j as int]);
            assert(s@.skip(j as int).drop_first() =~= s@.skip(j + 1 as int));
        }
    }
    if i == p.len() {
        j == s.len()
    } else if p[i] == '*' {
        if match_from(p, s, i + 1, j) {
            true
        } else if j < s.len() {
            match_from(p, s, i, j + 1)
        } else {
            false
        }
    } else if j == s.len() {
        false
    } else if p[i] == '?' || p[i] == s[j] {
        match_from(p, s, i + 1, j + 1)
    } else {
        false
    }
}

/// Matches the pre-split characters of a pattern against a subject. Brokers
/// keep each subscription's pattern split once and reuse it on every publish.
pub fn matches_chars(pattern: &Vec<char>, subject: &str) -> (r: bool)
    ensures
        r == spec_matches(pattern@, subject@),
{
    let s = chars_vec(subject);
    let r = match_from(pattern, &s, 0, 0);
    proof {
        assert(pattern@.skip(0) =~= pattern@);
        assert(s@.skip(0) =~= s@);
    }
    r
}

/// Does `pattern` match `subject`?
pub fn matches(pattern: &str, subject: &str) -> (r: bool)
    ensures
        r == spec_matches(pattern@, subject@),
{
    let p = chars_vec(pattern);
    matches_chars(&p, subject)
}

} // verus!
