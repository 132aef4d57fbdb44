//! The places of the frames of a trace: each frame holds what the input has
//! from one of its places on.

use vstd::prelude::*;
use crate::chars::CharClass;
use crate::error::{ErrorTag, Trace};
use crate::grammar::{
    spec_fragment, spec_host, spec_ipv4, spec_number, spec_pair, spec_pairs, spec_path, spec_port,
    spec_protocol, spec_query, then_dot, then_octet, Outcome,
};
use crate::number::lemma_number_bounds;
use crate::path::lemma_segments_bounds;
use crate::query::lemma_pair_bounds;
use crate::reading::lemma_host_well_formed;
use crate::text::{has_at, lemma_run_len_bounds, run_len};

verus! {

/// `text` is what is left of `s` at one of its places.
pub open spec fn is_rest_of(text: Seq<char>, s: Seq<char>) -> bool {
    exists|k: int| 0 <= k <= s.len() && text == #[trigger] s.skip(k)
}

/// Every frame of `trace` holds what is left of `s` at one of its places.
pub open spec fn frames_within(trace: Trace, s: Seq<char>) -> bool {
    forall|i: int| 0 <= i < trace.len() ==> is_rest_of((#[trigger] trace[i]).0, s)
}

/// What is left of `s` at `k` is a rest of `s`.
pub proof fn lemma_rest(s: Seq<char>, k: int)
    requires
        0 <= k <= s.len(),
    ensures
        is_rest_of(s.skip(k), s),
        is_rest_of(s, s),
{
    assert(s.skip(0) =~= s);
}

/// The frames of a trace within a rest of `s` are within `s`.
pub proof fn lemma_frames_of_rest(trace: Trace, s: Seq<char>, a: int)
    requires
        0 <= a <= s.len(),
        frames_within(trace, s.skip(a)),
    ensures
        frames_within(trace, s),
{
    assert forall|i: int| 0 <= i < trace.len() implies is_rest_of((#[trigger] trace[i]).0, s) by {
        let k = choose|k: int| 0 <= k <= s.skip(a).len() && trace[i].0 == s.skip(a).skip(k);
        assert(s.skip(a).skip(k) =~= s.skip(a + k));
    }
}

/// One more frame at a rest of `s` around a trace within `s`.
pub proof fn lemma_frames_push(trace: Trace, s: Seq<char>, text: Seq<char>, tag: ErrorTag)
    requires
        frames_within(trace, s),
        is_rest_of(text, s),
    ensures
        frames_within(trace.push((text, tag)), s),
{
    let grown = trace.push((text, tag));
    assert forall|i: int| 0 <= i < grown.len() implies is_rest_of((#[trigger] grown[i]).0, s) by {
        if i < trace.len() {
            assert(grown[i] == trace[i]);
        }
    }
}

/// The frame of a number that fails is at the number.
pub proof fn lemma_number_frames(s: Seq<char>, max: int, limit: nat)
    ensures
        spec_number(s, max, limit) matches Err(trace) ==> frames_within(trace, s),
{
    lemma_rest(s, 0);
}

/// The frames of pairs that fail are within the pairs.
pub proof fn lemma_pairs_frames(s: Seq<char>)
    ensures
        spec_pairs(s) matches Err(trace) ==> frames_within(trace, s),
    decreases s.len(),
{
    let k = run_len(s, CharClass::Pair) as int;
    lemma_run_len_bounds(s, CharClass::Pair);
    lemma_rest(s, 0);
    lemma_rest(s, k);
    match spec_pair(s) {
        Ok((pair, n)) => {
            if has_at(s, n, '&') {
                lemma_pairs_frames(s.skip(n + 1));
                if let Err(trace) = spec_pairs(s.skip(n + 1)) {
                    lemma_frames_of_rest(trace, s, n + 1);
                }
            }
        },
        Err(trace) => {
            if has_at(s, k, '=') {
                lemma_rest(s, k + 1);
            }
        },
    }
}

/// What has been read of an address so far ends within the text, or the
/// frames of its failure are within the text.
pub open spec fn step_within(sofar: Outcome<Seq<u8>>, s: Seq<char>) -> bool {
    match sofar {
        Ok((octets, n)) => 0 <= n <= s.len(),
        Err(trace) => frames_within(trace, s),
    }
}

/// One more octet or dot leaves the frames within the text.
pub proof fn lemma_step_frames(sofar: Outcome<Seq<u8>>, s: Seq<char>)
    requires
        step_within(sofar, s),
    ensures
        step_within(then_octet(sofar, s), s),
        step_within(then_dot(sofar, s), s),
{
    reveal(then_octet);
    reveal(then_dot);
    if let Ok((octets, n)) = sofar {
        lemma_number_bounds(s.skip(n), 3, 255);
        lemma_number_frames(s.skip(n), 3, 255);
        lemma_rest(s, n);
        if let Err(trace) = spec_number(s.skip(n), 3, 255) {
            lemma_frames_of_rest(trace, s, n);
        }
        let failed: Trace = seq![(s.skip(n), ErrorTag::Tag)];
        assert(frames_within(failed, s));
    }
}

/// The frames of an address that fails are within the address.
pub proof fn lemma_address_frames(s: Seq<char>)
    ensures
        spec_ipv4(s) matches Err(trace) ==> frames_within(trace, s),
{
    reveal(then_octet);
    reveal(then_dot);
    let start: Outcome<Seq<u8>> = Ok((Seq::empty(), 0));
    let first = then_octet(start, s);
    let dot1 = then_dot(first, s);
    let second = then_octet(dot1, s);
    let dot2 = then_dot(second, s);
    let third = then_octet(dot2, s);
    let dot3 = then_dot(third, s);
    let fourth = then_octet(dot3, s);
    lemma_rest(s, 0);
    lemma_step_frames(start, s);
    lemma_step_frames(first, s);
    lemma_step_frames(dot1, s);
    lemma_step_frames(second, s);
    lemma_step_frames(dot2, s);
    lemma_step_frames(third, s);
    lemma_step_frames(dot3, s);
    if let Err(trace) = fourth {
        lemma_frames_push(trace, s, s, ErrorTag::Context("ipv4"));
    }
}

/// Pairs that were read end within the text.
pub proof fn lemma_pairs_bounds(s: Seq<char>)
    ensures
        spec_pairs(s) matches Ok((pairs, n)) ==> 0 <= n <= s.len(),
    decreases s.len(),
{
    lemma_pair_bounds(s);
    if let Ok((pair, n)) = spec_pair(s) {
        if has_at(s, n, '&') {
            lemma_pairs_bounds(s.skip(n + 1));
        }
    }
}

/// The place of a part that was read is within the text.
pub proof fn lemma_part_bounds(s: Seq<char>)
    ensures
        spec_protocol(s) matches Ok((protocol, n)) ==> 0 <= n <= s.len(),
        spec_host(s) matches Ok((host, n)) ==> 0 <= n <= s.len(),
        spec_port(s) matches Ok((port, n)) ==> 0 <= n <= s.len(),
        spec_path(s) matches Ok((path, n)) ==> 0 <= n <= s.len(),
        spec_query(s) matches Ok((query, n)) ==> 0 <= n <= s.len(),
        spec_fragment(s) matches Ok((fragment, n)) ==> 0 <= n <= s.len(),
{
    reveal(spec_protocol);
    reveal(spec_port);
    reveal(spec_path);
    reveal(spec_query);
    reveal(spec_fragment);
    lemma_host_well_formed(s);
    lemma_number_bounds(s.skip(1), 5, 65535);
    lemma_segments_bounds(s);
    if has_at(s, 0, '?') {
        lemma_pairs_bounds(s.skip(1));
    }
}

} // verus!
