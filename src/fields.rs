//! Reading the numeric fields of a table row: the user count and the load.

use vstd::prelude::*;
use vstd::string::StrSliceExecFns;
use crate::load::Load;

verus! {

pub open spec fn is_digit(c: char) -> bool {
    '0' <= c && c <= '9'
}

pub open spec fn digit_of(c: char) -> nat {
    (c as u32 - '0' as u32) as nat
}

/// The number that the decimal digits of `s` spell, read left to right;
/// any other character is passed over.
pub open spec fn digits_value(s: Seq<char>) -> nat
    decreases s.len(),
{
    if s.len() == 0 {
        0
    } else if is_digit(s.last()) {
        digits_value(s.drop_last()) * 10 + digit_of(s.last())
    } else {
        digits_value(s.drop_last())
    }
}

/// How many decimal points `s` holds.
pub open spec fn dot_count(s: Seq<char>) -> nat
    decreases s.len(),
{
    if s.len() == 0 {
        0
    } else if s.last() == '.' {
        dot_count(s.drop_last()) + 1
    } else {
        dot_count(s.drop_last())
    }
}

/// How many digits end `s`.
pub open spec fn trailing_digits(s: Seq<char>) -> nat
    decreases s.len(),
{
    if s.len() == 0 || !is_digit(s.last()) {
        0
    } else {
        trailing_digits(s.drop_last()) + 1
    }
}

/// One or more decimal digits and nothing else.
pub open spec fn is_count_text(s: Seq<char>) -> bool {
    s.len() > 0 && forall|i: int| 0 <= i < s.len() ==> is_digit(#[trigger] s[i])
}

/// Decimal digits with at most one decimal point, and at least one digit.
pub open spec fn is_load_text(s: Seq<char>) -> bool {
    &&& forall|i: int| 0 <= i < s.len() ==> is_digit(#[trigger] s[i]) || s[i] == '.'
    &&& dot_count(s) <= 1
    &&& dot_count(s) < s.len()
}

/// The user count that a field's text gives, where it is a count that fits
/// in a `usize`.
pub open spec fn count_of(s: Seq<char>) -> Option<nat> {
    if is_count_text(s) && digits_value(s) <= usize::MAX {
        Some(digits_value(s))
    } else {
        None
    }
}

/// The load that a field's text gives: its digits as the mantissa, and as
/// the scale the number of digits after the decimal point. `None` where the
/// text is no such number, or where its digits do not fit in a `u128`.
pub open spec fn load_of(s: Seq<char>) -> Option<Load> {
    if is_load_text(s) && digits_value(s) <= u128::MAX {
        Some(
            Load {
                mantissa: digits_value(s) as u128,
                scale: if dot_count(s) == 1 {
                    trailing_digits(s) as usize
                } else {
                    0
                },
            },
        )
    } else {
        None
    }
}

proof fn lemma_prefix_step(s: Seq<char>, i: int)
    requires
        0 <= i < s.len(),
    ensures
        s.subrange(0, i + 1).drop_last() == s.subrange(0, i),
        s.subrange(0, i + 1).last() == s[i],
{
    assert(s.subrange(0, i + 1).drop_last() =~= s.subrange(0, i));
}

/// Digit values and point counts only grow along the prefixes of a text.
proof fn lemma_prefix_monotone(s: Seq<char>, j: int, k: int)
    requires
        0 <= j <= k <= s.len(),
    ensures
        digits_value(s.subrange(0, j)) <= digits_value(s.subrange(0, k)),
        dot_count(s.subrange(0, j)) <= dot_count(s.subrange(0, k)),
    decreases k - j,
{
    if j < k {
        lemma_prefix_monotone(s, j, k - 1);
        lemma_prefix_step(s, k - 1);
    }
}

/// Reads a user count: decimal digits only, fitting in a `usize`.
pub fn parse_count(text: &str) -> (r: Option<usize>)
    ensures
        r matches Some(n) ==> count_of(text@) == Some(n as nat),
        r is None ==> count_of(text@) is None,
{
    let n: usize = text.unicode_len();
    if n == 0 {
        return None;
    }
    let mut value: usize = 0;
    let mut i: usize = 0;
    assert(text@.subrange(0, 0).len() == 0);
    while i < n
        invariant
            n == text@.len(),
            i <= n,
            forall|k: int| 0 <= k < i ==> is_digit(#[trigger] text@[k]),
            value == digits_value(text@.subrange(0, i as int)),
        decreases n - i,
    {
        let c: char = text.get_char(i);
        proof {
            lemma_prefix_step(text@, i as int);
        }
        if !('0' <= c && c <= '9') {
            return None;
        }
        let d: usize = (c as u32 - '0' as u32) as usize;
        if value > (usize::MAX - d) / 10 {
            proof {
                lemma_prefix_monotone(text@, i + 1, n as int);
                assert(text@.subrange(0, n as int) =~= text@);
            }
            return None;
        }
        value = value * 10 + d;
        i = i + 1;
    }
    assert(text@.subrange(0, n as int) =~= text@);
    Some(value)
}

/// Reads a load: decimal digits with at most one decimal point ("0.42",
/// "3", "5."), as an exact decimal.
pub fn parse_load(text: &str) -> (r: Option<Load>)
    ensures
        r == load_of(text@),
{
    let n: usize = text.unicode_len();
    let mut mantissa: u128 = 0;
    let mut dots: usize = 0;
    let mut trail: usize = 0;
    let mut i: usize = 0;
    assert(text@.subrange(0, 0).len() == 0);
    while i < n
        invariant
            n == text@.len(),
            i <= n,
            forall|k: int| 0 <= k < i ==> is_digit(#[trigger] text@[k]) || text@[k] == '.',
            mantissa == digits_value(text@.subrange(0, i as int)),
            dots == dot_count(text@.subrange(0, i as int)),
            dots <= 1,
            trail == trailing_digits(text@.subrange(0, i as int)),
            trail <= i,
        decreases n - i,
    {
        let c: char = text.get_char(i);
        proof {
            lemma_prefix_step(text@, i as int);
            lemma_prefix_monotone(text@, i + 1, n as int);
            assert(text@.subrange(0, n as int) =~= text@);
        }
        if c == '.' {
            if dots == 1 {
                return None;
            }
            dots = 1;
            trail = 0;
        } else if '0' <= c && c <= '9' {
            let d: u128 = (c as u32 - '0' as u32) as u128;
            if mantissa > (u128::MAX - d) / 10 {
                return None;
            }
            mantissa = mantissa * 10 + d;
            trail = trail + 1;
        } else {
            return None;
        }
        i = i + 1;
    }
    assert(text@.subrange(0, n as int) =~= text@);
    if dots >= n {
        return None;
    }
    let scale: usize = if dots == 1 {
        trail
    } else {
        0
    };
    Some(Load { mantissa, scale })
}

} // verus!
