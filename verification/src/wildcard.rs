//! Glob-style name matching: `*` matches any run of bytes, `?` matches
//! exactly one byte, anything else matches itself. A pattern is matched
//! against a whole header name, never a substring.

use vstd::prelude::*;

verus! {

/// Whether pattern `p` matches the whole of `s`.
pub open spec fn wild_matches(p: Seq<u8>, s: Seq<u8>) -> bool
    decreases p.len(), s.len(),
{
    if p.len() == 0 {
        s.len() == 0
    } else if p[0] == crate::ascii::STAR {
        wild_matches(p.skip(1), s) || (s.len() > 0 && wild_matches(p, s.skip(1)))
    } else if s.len() == 0 {
        false
    } else {
        (p[0] == crate::ascii::QUESTION || p[0] == s[0]) && wild_matches(p.skip(1), s.skip(1))
    }
}

fn matches_from(p: &[u8], s: &[u8], i: usize, j: usize) -> (r: bool)
    requires
        i <= p@.len(),
        j <= s@.len(),
    ensures
        r == wild_matches(p@.skip(i as int), s@.skip(j as int)),
    decreases p@.len() - i, s@.len() - j,
{
    proof {
        assert(p@.skip(i as int).len() == p@.len() - i);
        assert(s@.skip(j as int).len() == s@.len() - j);
    }
    if i == p.len() {
        j == s.len()
    } else if p[i] == crate::ascii::STAR {
        proof {
            assert(p@.skip(i as int)[0] == p@[i as int]);
            assert(p@.skip(i as int).skip(1) =~= p@.skip(i as int + 1));
        }
        if matches_from(p, s, i + 1, j) {
            true
        } else if j < s.len() {
            proof {
                assert(s@.skip(j as int).skip(1) =~= s@.skip(j as int + 1));
            }
            matches_from(p, s, i, j + 1)
        } else {
            false
        }
    } else if j == s.len() {
        proof {
            assert(p@.skip(i as int)[0] == p@[i as int]);
        }
        false
    } else {
        proof {
            assert(p@.skip(i as int)[0] == p@[i as int]);
            assert(s@.skip(j as int)[0] == s@[j as int]);
            assert(p@.skip(i as int).skip(1) =~= p@.skip(i as int + 1));
            assert(s@.skip(j as int).skip(1) =~= s@.skip(j as int + 1));
        }
        (p[i] == crate::ascii::QUESTION || p[i] == s[j]) && matches_from(p, s, i + 1, j + 1)
    }
}

/// Decides whether the pattern matches the whole name.
pub fn pattern_matches(pattern: &Vec<u8>, name: &Vec<u8>) -> (r: bool)
    ensures
        r == wild_matches(pattern@, name@),
{
    let r = matches_from(pattern.as_slice(), name.as_slice(), 0, 0);
    proof {
        assert(pattern@.skip(0) =~= pattern@);
        assert(name@.skip(0) =~= name@);
    }
    r
}

} // verus!
