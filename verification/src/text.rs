//! Runs, prefixes and numbers in a sequence of characters: the vocabulary in
//! which the grammar is stated.

use vstd::prelude::*;
use crate::chars::{digit_value, fold, CharClass};

verus! {

/// The length of the longest prefix of `s` whose characters all belong to
/// `class`.
pub open spec fn run_len(s: Seq<char>, class: CharClass) -> nat
    decreases s.len(),
{
    if s.len() > 0 && class.contains(s[0]) {
        1 + run_len(s.skip(1), class)
    } else {
        0
    }
}

/// `s` has `c` at `i`.
pub open spec fn has_at(s: Seq<char>, i: int, c: char) -> bool {
    0 <= i < s.len() && s[i] == c
}

/// Every character of `s` belongs to `class`.
pub open spec fn all_in(s: Seq<char>, class: CharClass) -> bool {
    forall|i: int| 0 <= i < s.len() ==> class.contains(#[trigger] s[i])
}

/// `a` and `b` are equal up to the case of ASCII letters.
pub open spec fn caseless_eq(a: Seq<char>, b: Seq<char>) -> bool {
    &&& a.len() == b.len()
    &&& forall|i: int| 0 <= i < a.len() ==> fold(#[trigger] a[i]) == fold(b[i])
}

/// `s` starts with `literal`, up to the case of ASCII letters.
pub open spec fn caseless_prefix(literal: Seq<char>, s: Seq<char>) -> bool {
    literal.len() <= s.len() && caseless_eq(s.take(literal.len() as int), literal)
}

/// The number that the decimal digits `s` write.
pub open spec fn decimal(s: Seq<char>) -> nat
    decreases s.len(),
{
    if s.len() == 0 {
        0
    } else {
        decimal(s.drop_last()) * 10 + digit_value(s.last())
    }
}

/// A run lies within the text, holds characters of the class only, and ends
/// at the end of the text or before a character outside the class.
pub proof fn lemma_run_len_bounds(s: Seq<char>, class: CharClass)
    ensures
        run_len(s, class) <= s.len(),
        all_in(s.take(run_len(s, class) as int), class),
        run_len(s, class) < s.len() ==> !class.contains(s[run_len(s, class) as int]),
    decreases s.len(),
{
    if s.len() > 0 && class.contains(s[0]) {
        let t = s.skip(1);
        lemma_run_len_bounds(t, class);
        let n = run_len(t, class) as int;
        assert forall|i: int| 0 <= i < n + 1 implies class.contains(
            #[trigger] s.take(n + 1)[i],
        ) by {
            if i > 0 {
                assert(s.take(n + 1)[i] == t.take(n)[i - 1]);
            }
        }
        if n < t.len() {
            assert(s[n + 1] == t[n]);
        }
    }
}

/// A run is told by its two ends: it is the prefix of characters of the
/// class that is followed by the end of the text or by a character outside
/// the class.
pub proof fn lemma_run_len_unique(s: Seq<char>, class: CharClass, n: int)
    requires
        0 <= n <= s.len(),
        all_in(s.take(n), class),
        n < s.len() ==> !class.contains(s[n]),
    ensures
        run_len(s, class) == n,
    decreases n,
{
    if n > 0 {
        assert(s.take(n)[0] == s[0]);
        let t = s.skip(1);
        assert forall|i: int| 0 <= i < n - 1 implies class.contains(
            #[trigger] t.take(n - 1)[i],
        ) by {
            assert(t.take(n - 1)[i] == s.take(n)[i + 1]);
        }
        if n - 1 < t.len() {
            assert(t[n - 1] == s[n]);
        }
        lemma_run_len_unique(t, class, n - 1);
    }
}

/// `tail` is empty or starts with a character outside `class`: a run of the
/// class that stands before it ends there.
pub open spec fn stops(tail: Seq<char>, class: CharClass) -> bool {
    tail.len() == 0 || !class.contains(tail[0])
}

/// In front of a text that stops it, a text of characters of the class is
/// the run.
pub proof fn lemma_run_before(run: Seq<char>, tail: Seq<char>, class: CharClass)
    requires
        all_in(run, class),
        stops(tail, class),
    ensures
        run_len(run + tail, class) == run.len(),
        (run + tail).take(run.len() as int) == run,
        (run + tail).skip(run.len() as int) == tail,
{
    let s = run + tail;
    let n = run.len() as int;
    assert(s.take(n) =~= run);
    assert(s.skip(n) =~= tail);
    if n < s.len() {
        assert(s[n] == tail[0]);
    }
    lemma_run_len_unique(s, class, n);
}

/// A prefix of characters of the class is part of the run.
pub proof fn lemma_run_len_at_least(s: Seq<char>, class: CharClass, n: int)
    requires
        0 <= n <= s.len(),
        all_in(s.take(n), class),
    ensures
        run_len(s, class) >= n,
    decreases n,
{
    if n > 0 {
        assert(s.take(n)[0] == s[0]);
        let t = s.skip(1);
        assert forall|i: int| 0 <= i < n - 1 implies class.contains(
            #[trigger] t.take(n - 1)[i],
        ) by {
            assert(t.take(n - 1)[i] == s.take(n)[i + 1]);
        }
        lemma_run_len_at_least(t, class, n - 1);
    }
}

/// Ten to the power of `n`.
pub open spec fn pow10(n: nat) -> nat
    decreases n,
{
    if n == 0 {
        1
    } else {
        10 * pow10((n - 1) as nat)
    }
}

/// The number that `n` digits write is below ten to the power of `n`.
pub proof fn lemma_decimal_bound(s: Seq<char>)
    requires
        all_in(s, CharClass::Digit),
    ensures
        decimal(s) < pow10(s.len()),
    decreases s.len(),
{
    if s.len() > 0 {
        let init = s.drop_last();
        assert forall|i: int| 0 <= i < init.len() implies CharClass::Digit.contains(
            #[trigger] init[i],
        ) by {
            assert(init[i] == s[i]);
        }
        lemma_decimal_bound(init);
        assert(CharClass::Digit.contains(s[s.len() - 1]));
    }
}

/// One more digit behind the digits read so far.
pub proof fn lemma_decimal_step(s: Seq<char>, n: int)
    requires
        0 <= n < s.len(),
    ensures
        decimal(s.take(n + 1)) == decimal(s.take(n)) * 10 + digit_value(s[n]),
{
    assert(s.take(n + 1).drop_last() =~= s.take(n));
}

} // verus!
