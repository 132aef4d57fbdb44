//! Decimal numbers of a bounded number of digits.

use vstd::prelude::*;
use crate::chars::CharClass;
use crate::error::{ErrorTag, ParseError};
use crate::grammar::{digits_len, fails, reads, spec_number};
use crate::matchers::digit;
use crate::text::{
    all_in, decimal, lemma_decimal_bound, lemma_decimal_step, lemma_run_len_at_least,
    lemma_run_len_bounds, lemma_run_len_unique, pow10, run_len,
};

verus! {

/// Reads a number of one to `max` digits at the start of `input`. Digits
/// behind the first `max` are left. The number has to be at most `limit`.
pub fn number<'a>(input: &'a str, max: u8, limit: u32) -> (r: Result<
    (&'a str, u32),
    ParseError<'a>,
>)
    requires
        max <= 9,
    ensures
        match r {
            Ok((rest, value)) => reads(
                spec_number(input@, max as int, limit as nat),
                input@,
                value as nat,
                rest@,
            ),
            Err(e) => fails(spec_number(input@, max as int, limit as nat), e@),
        },
{
    let mut rest = input;
    let mut value: u32 = 0;
    let mut count: u8 = 0;
    proof {
        assert(input@.skip(0) =~= input@);
        reveal_with_fuel(pow10, 10);
        assert(pow10(9) == 1_000_000_000);
    }
    while count < max
        invariant
            count <= max <= 9,
            count <= input@.len(),
            rest@ == input@.skip(count as int),
            all_in(input@.take(count as int), CharClass::Digit),
            value == decimal(input@.take(count as int)),
            run_len(input@, CharClass::Digit) >= count,
            pow10(9) == 1_000_000_000,
        ensures
            count == digits_len(input@, max as int),
        decreases max - count,
    {
        proof {
            lemma_decimal_bound(input@.take(count as int));
            lemma_pow10_grows(count as nat, 8);
        }
        match digit(rest) {
            Ok((next, d)) => {
                proof {
                    let n = count as int;
                    assert(rest@[0] == input@[n]);
                    assert(next@ =~= input@.skip(n + 1));
                    lemma_decimal_step(input@, n);
                    assert forall|i: int| 0 <= i < n + 1 implies CharClass::Digit.contains(
                        #[trigger] input@.take(n + 1)[i],
                    ) by {
                        if i < n {
                            assert(input@.take(n + 1)[i] == input@.take(n)[i]);
                        }
                    }
                }
                value = value * 10 + d as u32;
                rest = next;
                count = count + 1;
                proof {
                    lemma_run_len_at_least(input@, CharClass::Digit, count as int);
                }
            },
            Err(_) => {
                proof {
                    let n = count as int;
                    if n < input@.len() {
                        assert(rest@[0] == input@[n]);
                    }
                    lemma_run_len_unique(input@, CharClass::Digit, n);
                }
                break ;
            },
        }
    }
    if count == 0 {
        Err(ParseError::from_error_kind(input, ErrorTag::Digit))
    } else if value > limit {
        Err(ParseError::from_error_kind(input, ErrorTag::OutOfRange))
    } else {
        Ok((rest, value))
    }
}

/// A number that was read has at least one digit and at most `max`, all of
/// them in the text, and is at most `limit`.
pub proof fn lemma_number_bounds(s: Seq<char>, max: int, limit: nat)
    requires
        0 <= max,
    ensures
        spec_number(s, max, limit) matches Ok((v, n)) ==> 1 <= n <= max && n <= s.len() && v
            <= limit,
{
    lemma_run_len_bounds(s, CharClass::Digit);
}

/// Ten to the power of `n` is at most ten to the power of `m` where `n` is
/// at most `m`.
pub proof fn lemma_pow10_grows(n: nat, m: nat)
    requires
        n <= m,
    ensures
        pow10(n) <= pow10(m),
        pow10(n) >= 1,
    decreases m,
{
    if n < m {
        lemma_pow10_grows(n, (m - 1) as nat);
    } else if n > 0 {
        lemma_pow10_grows((n - 1) as nat, (m - 1) as nat);
    }
}

} // verus!
