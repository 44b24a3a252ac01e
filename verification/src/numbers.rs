//! The JSON number grammar: optional minus sign, an integer part with no
//! superfluous leading zero, an optional fraction, an optional exponent,
//! and nothing after it.

use vstd::prelude::*;

verus! {

/// ASCII decimal digit.
pub open spec fn is_digit(b: u8) -> bool {
    crate::ascii::DIGIT_0 <= b && b <= crate::ascii::DIGIT_9
}

/// First index at or after `i` that does not hold a digit (or the end).
pub open spec fn skip_digits(s: Seq<u8>, i: int) -> int
    decreases s.len() - i,
{
    if 0 <= i < s.len() && is_digit(s[i]) {
        skip_digits(s, i + 1)
    } else {
        i
    }
}

/// Index just past the fraction part that starts at `j`, or -1 if a `.`
/// stands there without a digit after it.
pub open spec fn frac_end(s: Seq<u8>, j: int) -> int {
    if 0 <= j < s.len() && s[j] == crate::ascii::DOT {
        if j + 1 < s.len() && is_digit(s[j + 1]) {
            skip_digits(s, j + 1)
        } else {
            -1
        }
    } else {
        j
    }
}

/// Index just past the exponent part that starts at `k`, or -1 if an `e`
/// stands there without digits after it (or the fraction was malformed).
pub open spec fn exp_end(s: Seq<u8>, k: int) -> int {
    if k < 0 {
        -1
    } else if 0 <= k < s.len() && (s[k] == crate::ascii::LOWER_E || s[k] == crate::ascii::UPPER_E) {
        let k2 = if k + 1 < s.len() && (s[k + 1] == crate::ascii::PLUS || s[k + 1] == crate::ascii::MINUS) {
            k + 2
        } else {
            k + 1
        };
        if k2 < s.len() && is_digit(s[k2]) {
            skip_digits(s, k2)
        } else {
            -1
        }
    } else {
        k
    }
}

/// Whether `s` is a complete JSON number: `-?(0|[1-9][0-9]*)(\.[0-9]+)?([eE][+-]?[0-9]+)?`.
pub open spec fn is_json_number(s: Seq<u8>) -> bool {
    let i = if s.len() >= 1 && s[0] == crate::ascii::MINUS {
        1int
    } else {
        0int
    };
    &&& i < s.len()
    &&& is_digit(s[i])
    &&& {
        let j = if s[i] == crate::ascii::DIGIT_0 {
            i + 1
        } else {
            skip_digits(s, i)
        };
        exp_end(s, frac_end(s, j)) == s.len()
    }
}

/// Scans past a run of digits, returning the first index that is not one.
fn scan_digits(s: &[u8], i: usize) -> (r: usize)
    requires
        i <= s@.len(),
    ensures
        i <= r <= s@.len(),
        r == skip_digits(s@, i as int),
{
    let mut j = i;
    while j < s.len() && s[j] >= crate::ascii::DIGIT_0 && s[j] <= crate::ascii::DIGIT_9
        invariant
            i <= j <= s@.len(),
            skip_digits(s@, i as int) == skip_digits(s@, j as int),
        decreases s@.len() - j,
    {
        j = j + 1;
    }
    j
}

/// Decides whether `s` is a complete JSON number.
pub fn is_number_text(s: &[u8]) -> (r: bool)
    ensures
        r == is_json_number(s@),
{
    let n = s.len();
    let i: usize = if n >= 1 && s[0] == crate::ascii::MINUS {
        1
    } else {
        0
    };
    if i >= n || s[i] < crate::ascii::DIGIT_0 || s[i] > crate::ascii::DIGIT_9 {
        return false;
    }
    let j: usize = if s[i] == crate::ascii::DIGIT_0 {
        i + 1
    } else {
        scan_digits(s, i)
    };
    let k: usize = if j < n && s[j] == crate::ascii::DOT {
        if j + 1 < n && s[j + 1] >= crate::ascii::DIGIT_0 && s[j + 1] <= crate::ascii::DIGIT_9 {
            scan_digits(s, j + 1)
        } else {
            return false;
        }
    } else {
        j
    };
    let m: usize = if k < n && (s[k] == crate::ascii::LOWER_E || s[k] == crate::ascii::UPPER_E) {
        let k2: usize = if k + 1 < n && (s[k + 1] == crate::ascii::PLUS || s[k + 1] == crate::ascii::MINUS) {
            k + 2
        } else {
            k + 1
        };
        if k2 < n && s[k2] >= crate::ascii::DIGIT_0 && s[k2] <= crate::ascii::DIGIT_9 {
            scan_digits(s, k2)
        } else {
            return false;
        }
    } else {
        k
    };
    m == n
}

} // verus!
