//! Verified parsing of the plain token fields that appear in the source
//! table: non-negative decimal integers and single-letter result codes.

use vstd::prelude::*;
use crate::game::Outcome;

verus! {

/// A decimal digit.
pub open spec fn is_digit_char(c: char) -> bool {
    '0' <= c && c <= '9'
}

/// The numeric value of one digit.
pub open spec fn digit_value(c: char) -> int {
    c as int - '0' as int
}

/// Every character of `s` is a decimal digit.
pub open spec fn all_digits(s: Seq<char>) -> bool {
    forall|i: int| 0 <= i < s.len() ==> is_digit_char(#[trigger] s[i])
}

/// The value of `s` read as a decimal numeral, most significant digit first.
pub open spec fn str_to_nat(s: Seq<char>) -> nat
    decreases s.len(),
{
    if s.len() == 0 {
        0
    } else {
        str_to_nat(s.drop_last()) * 10 + (digit_value(s.last()) as nat)
    }
}

/// `s` is a numeral the machine can hold: non-empty, all digits, and its
/// value fits in a `usize`.
pub open spec fn is_count_str(s: Seq<char>) -> bool {
    s.len() > 0 && all_digits(s) && str_to_nat(s) <= usize::MAX
}

/// The value of a numeral never falls when more digits follow it.
proof fn lemma_str_to_nat_prefix_le(s: Seq<char>, k: int)
    requires
        0 <= k <= s.len(),
    ensures
        str_to_nat(s.subrange(0, k)) <= str_to_nat(s),
    decreases s.len(),
{
    if k == s.len() {
        assert(s.subrange(0, k) =~= s);
    } else {
        lemma_str_to_nat_prefix_le(s.drop_last(), k);
        assert(s.drop_last().subrange(0, k) =~= s.subrange(0, k));
    }
}

/// Reads a non-negative decimal integer, rejecting anything else.
/// Returns the value exactly when the whole string is a numeral whose
/// value fits in a `usize`.
pub fn parse_count(s: &str) -> (r: Option<usize>)
    ensures
        r is Some <==> is_count_str(s@),
        r matches Some(v) ==> v == str_to_nat(s@),
{
    let n = s.unicode_len();
    if n == 0 {
        return None;
    }
    let mut val: usize = 0;
    let mut i: usize = 0;
    while i < n
        invariant
            0 <= i <= n,
            n == s@.len(),
            all_digits(s@.subrange(0, i as int)),
            val == str_to_nat(s@.subrange(0, i as int)),
        decreases n - i,
    {
        let c = s.get_char(i);
        proof {
            assert(s@.subrange(0, i + 1).drop_last() =~= s@.subrange(0, i as int));
            assert(s@.subrange(0, i + 1).last() == s@[i as int]);
        }
        if c < '0' || c > '9' {
            return None;
        }
        let d: usize = (c as u32 - 48) as usize;
        let scaled = match val.checked_mul(10) {
            Some(v) => v,
            None => {
                proof {
                    lemma_str_to_nat_prefix_le(s@, i + 1);
                }
                return None;
            },
        };
        let next = match scaled.checked_add(d) {
            Some(v) => v,
            None => {
                proof {
                    lemma_str_to_nat_prefix_le(s@, i + 1);
                }
                return None;
            },
        };
        val = next;
        i = i + 1;
    }
    proof {
        assert(s@.subrange(0, n as int) =~= s@);
    }
    Some(val)
}

/// The outcome a single-letter result code stands for, if it is one of
/// the three known codes.
pub open spec fn outcome_of_code(s: Seq<char>) -> Option<Outcome> {
    if s.len() == 1 && s[0] == 'H' {
        Some(Outcome::HomeWin)
    } else if s.len() == 1 && s[0] == 'A' {
        Some(Outcome::AwayWin)
    } else if s.len() == 1 && s[0] == 'D' {
        Some(Outcome::Draw)
    } else {
        None
    }
}

/// Reads a result code: `H`, `A` or `D`, nothing else.
pub fn parse_outcome(s: &str) -> (r: Option<Outcome>)
    ensures
        r == outcome_of_code(s@),
{
    let n = s.unicode_len();
    if n != 1 {
        return None;
    }
    let c = s.get_char(0);
    if c == 'H' {
        Some(Outcome::HomeWin)
    } else if c == 'A' {
        Some(Outcome::AwayWin)
    } else if c == 'D' {
        Some(Outcome::Draw)
    } else {
        None
    }
}

} // verus!
