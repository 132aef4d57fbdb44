//! The parts of a URL as they are written, read back one by one: the scheme,
//! the port, the path, the query and the fragment.

use vstd::prelude::*;
use crate::chars::{fold, CharClass};
use crate::error::Trace;
use crate::grammar::{
    http_literal, https_literal, spec_fragment, spec_number, spec_pair, spec_pairs, spec_path,
    spec_port, spec_protocol, spec_query, spec_segments,
};
use crate::text::{all_in, caseless_eq, decimal, lemma_run_before, lemma_run_len_at_least, stops};
use crate::url::Protocol;
use crate::written::{
    fragment_text, host_text, is_number, is_pair, is_pairs, is_segments, is_written, pair_text,
    pairs_text, path_text, port_of, port_text, query_text, segments_text, text_of,
    Written,
};
use crate::written_host::stops_host;

verus! {

/// `tail` is empty or starts with one of the delimiters `/`, `?` and `#`.
pub open spec fn starts_path_or_later(tail: Seq<char>) -> bool {
    tail.len() == 0 || tail[0] == '/' || tail[0] == '?' || tail[0] == '#'
}

/// `tail` is empty or starts with one of the delimiters `?` and `#`.
pub open spec fn starts_query_or_later(tail: Seq<char>) -> bool {
    tail.len() == 0 || tail[0] == '?' || tail[0] == '#'
}

/// `tail` is empty or starts with `#`.
pub open spec fn starts_fragment(tail: Seq<char>) -> bool {
    tail.len() == 0 || tail[0] == '#'
}

/// A scheme in any case is read as its protocol, whatever follows it.
pub proof fn lemma_scheme_written(scheme: Seq<char>, tail: Seq<char>)
    requires
        caseless_eq(scheme, http_literal()) || caseless_eq(scheme, https_literal()),
    ensures
        spec_protocol(scheme + tail) == Ok::<_, Trace>(
            (Protocol::of_literal(scheme), scheme.len() as int),
        ),
{
    reveal(spec_protocol);
    let s = scheme + tail;
    if caseless_eq(scheme, http_literal()) {
        assert(s.take(7) =~= scheme);
    } else {
        assert(s.take(8) =~= scheme);
        assert(s.take(7)[4] == scheme[4]);
        assert(fold(scheme[4]) == fold(https_literal()[4]));
        assert(fold(http_literal()[4]) == ':');
        assert(fold(s.take(7)[4]) != fold(http_literal()[4]));
    }
}

/// Digits that write a number within the limit are read as that number,
/// where they are as many as a number may have or no digit follows them.
pub proof fn lemma_number_written(digits: Seq<char>, tail: Seq<char>, max: int, limit: nat)
    requires
        is_number(digits, max, limit),
        digits.len() == max || stops(tail, CharClass::Digit),
    ensures
        spec_number(digits + tail, max, limit) == Ok::<_, Trace>(
            (decimal(digits), digits.len() as int),
        ),
{
    let s = digits + tail;
    let n = digits.len() as int;
    assert(s.take(n) =~= digits);
    lemma_run_len_at_least(s, CharClass::Digit, n);
    if stops(tail, CharClass::Digit) {
        lemma_run_before(digits, tail, CharClass::Digit);
    }
}

/// A port as it is written is read as the number of its digits, where what
/// follows it starts a later part.
pub proof fn lemma_port_written(port: Option<Seq<char>>, tail: Seq<char>)
    requires
        port matches Some(digits) ==> is_number(digits, 5, 65535),
        starts_path_or_later(tail),
    ensures
        spec_port(port_text(port) + tail) == Ok::<_, Trace>(
            (port_of(port), port_text(port).len() as int),
        ),
{
    reveal(spec_port);
    let s = port_text(port) + tail;
    match port {
        Some(digits) => {
            assert(s.skip(1) =~= digits + tail);
            lemma_number_written(digits, tail, 5, 65535);
        },
        None => {
            assert(s =~= tail);
        },
    }
}

/// Segments as they are written are read as they are, where what follows
/// them starts a later part.
pub proof fn lemma_segments_written(segments: Seq<Seq<char>>, tail: Seq<char>)
    requires
        is_segments(segments),
        starts_query_or_later(tail),
    ensures
        spec_segments(segments_text(segments) + tail) == (
            segments,
            segments_text(segments).len() as int,
        ),
    decreases segments.len(),
{
    let s = segments_text(segments) + tail;
    if segments.len() == 0 {
        assert(s =~= tail);
        assert(spec_segments(s).0 =~= segments);
    } else {
        let first = segments[0];
        let others = segments.skip(1);
        let behind = segments_text(others) + tail;
        assert(is_segments(others)) by {
            assert forall|i: int| 0 <= i < others.len() implies all_in(
                #[trigger] others[i],
                CharClass::Segment,
            ) by {
                assert(others[i] == segments[i + 1]);
            }
        }
        assert(s.skip(1) =~= first + behind);
        assert(stops(behind, CharClass::Segment)) by {
            if others.len() > 0 {
                assert(behind[0] == '/');
            } else {
                assert(behind =~= tail);
            }
        }
        lemma_run_before(first, behind, CharClass::Segment);
        let k = first.len() as int;
        assert(s.skip(1 + k) =~= behind);
        assert(s.subrange(1, 1 + k) =~= first);
        lemma_segments_written(others, tail);
        assert(seq![first] + others =~= segments);
    }
}

/// A path as it is written is read as it is, where what follows it starts a
/// later part.
pub proof fn lemma_path_written(path: Option<Seq<Seq<char>>>, tail: Seq<char>)
    requires
        path matches Some(segments) ==> segments.len() > 0 && is_segments(segments),
        starts_query_or_later(tail),
    ensures
        spec_path(path_text(path) + tail) == Ok::<_, Trace>(
            (path, path_text(path).len() as int),
        ),
{
    reveal(spec_path);
    let s = path_text(path) + tail;
    match path {
        Some(segments) => {
            lemma_segments_written(segments, tail);
            assert(s[0] == '/');
        },
        None => {
            assert(s =~= tail);
        },
    }
}

/// A pair as it is written is read as it is, where `&`, `#` or nothing
/// follows it.
pub proof fn lemma_pair_written(pair: (Seq<char>, Seq<char>), tail: Seq<char>)
    requires
        is_pair(pair),
        tail.len() == 0 || tail[0] == '&' || tail[0] == '#',
    ensures
        spec_pair(pair_text(pair) + tail) == Ok::<_, Trace>(
            (pair, pair_text(pair).len() as int),
        ),
{
    let s = pair_text(pair) + tail;
    let k = pair.0.len() as int;
    let v = pair.1.len() as int;
    let behind = seq!['='] + pair.1 + tail;
    assert(s =~= pair.0 + behind);
    lemma_run_before(pair.0, behind, CharClass::Pair);
    assert(s[k] == '=');
    assert(s.skip(k + 1) =~= pair.1 + tail);
    lemma_run_before(pair.1, tail, CharClass::Pair);
    assert(s.take(k) =~= pair.0);
    assert(s.subrange(k + 1, k + 1 + v) =~= pair.1);
}

/// Pairs as they are written are read as they are, where what follows them
/// starts the fragment.
pub proof fn lemma_pairs_written(pairs: Seq<(Seq<char>, Seq<char>)>, tail: Seq<char>)
    requires
        pairs.len() > 0,
        is_pairs(pairs),
        starts_fragment(tail),
    ensures
        spec_pairs(pairs_text(pairs) + tail) == Ok::<_, Trace>(
            (pairs, pairs_text(pairs).len() as int),
        ),
    decreases pairs.len(),
{
    let s = pairs_text(pairs) + tail;
    let first = pairs[0];
    let n = pair_text(first).len() as int;
    if pairs.len() == 1 {
        lemma_pair_written(first, tail);
        assert(seq![first] =~= pairs);
    } else {
        let others = pairs.skip(1);
        let behind = seq!['&'] + pairs_text(others) + tail;
        assert(s =~= pair_text(first) + behind);
        lemma_pair_written(first, behind);
        assert(s[n] == '&');
        assert(s.skip(n + 1) =~= pairs_text(others) + tail);
        assert(is_pairs(others)) by {
            assert forall|i: int| 0 <= i < others.len() implies is_pair(#[trigger] others[i]) by {
                assert(others[i] == pairs[i + 1]);
            }
        }
        lemma_pairs_written(others, tail);
        assert(seq![first] + others =~= pairs);
    }
}

/// A query as it is written is read as it is, where what follows it starts
/// the fragment.
pub proof fn lemma_query_written(query: Option<Seq<(Seq<char>, Seq<char>)>>, tail: Seq<char>)
    requires
        query matches Some(pairs) ==> pairs.len() > 0 && is_pairs(pairs),
        starts_fragment(tail),
    ensures
        spec_query(query_text(query) + tail) == Ok::<_, Trace>(
            (query, query_text(query).len() as int),
        ),
{
    reveal(spec_query);
    let s = query_text(query) + tail;
    match query {
        Some(pairs) => {
            assert(s.skip(1) =~= pairs_text(pairs) + tail);
            lemma_pairs_written(pairs, tail);
        },
        None => {
            assert(s =~= tail);
        },
    }
}

/// A fragment as it is written is read as it is.
pub proof fn lemma_fragment_written(fragment: Option<Seq<char>>)
    ensures
        spec_fragment(fragment_text(fragment)) == Ok::<_, Trace>(
            (fragment, fragment_text(fragment).len() as int),
        ),
{
    reveal(spec_fragment);
    let s = fragment_text(fragment);
    match fragment {
        Some(text) => {
            assert(s.skip(1) =~= text);
        },
        None => {},
    }
}

/// What follows each part in the text of a URL starts a later part or is
/// empty.
pub proof fn lemma_written_tails(w: Written)
    requires
        is_written(w),
    ensures
        starts_fragment(fragment_text(w.fragment)),
        starts_query_or_later(query_text(w.query) + fragment_text(w.fragment)),
        starts_path_or_later(
            path_text(w.path) + (query_text(w.query) + fragment_text(w.fragment)),
        ),
        stops_host(
            port_text(w.port) + (path_text(w.path) + (query_text(w.query) + fragment_text(
                w.fragment,
            ))),
        ),
{
    let t5 = fragment_text(w.fragment);
    let t4 = query_text(w.query) + t5;
    let t3 = path_text(w.path) + t4;
    let t2 = port_text(w.port) + t3;
    if w.query is None {
        assert(t4 =~= t5);
    }
    match w.path {
        Some(segments) => {
            assert(segments_text(segments)[0] == '/');
        },
        None => {
            assert(t3 =~= t4);
        },
    }
    if w.port is None {
        assert(t2 =~= t3);
    }
}

/// What is left of the text of a URL behind each of its parts.
pub proof fn lemma_written_splits(w: Written)
    ensures
        ({
            let t5 = fragment_text(w.fragment);
            let t4 = query_text(w.query) + t5;
            let t3 = path_text(w.path) + t4;
            let t2 = port_text(w.port) + t3;
            let t1 = host_text(w.host) + t2;
            let s = text_of(w);
            let a = w.scheme.len() as int;
            let b = a + host_text(w.host).len();
            let c = b + port_text(w.port).len();
            let d = c + path_text(w.path).len();
            let e = d + query_text(w.query).len();
            &&& s == w.scheme + t1
            &&& s.skip(a) == t1
            &&& s.skip(b) == t2
            &&& s.skip(c) == t3
            &&& s.skip(d) == t4
            &&& s.skip(e) == t5
            &&& s.len() == e + t5.len()
        }),
{
    let t5 = fragment_text(w.fragment);
    let t4 = query_text(w.query) + t5;
    let t3 = path_text(w.path) + t4;
    let t2 = port_text(w.port) + t3;
    let t1 = host_text(w.host) + t2;
    let s = text_of(w);
    let a = w.scheme.len() as int;
    let b = a + host_text(w.host).len();
    let c = b + port_text(w.port).len();
    let d = c + path_text(w.path).len();
    let e = d + query_text(w.query).len();
    assert(s.skip(a) =~= t1);
    assert(t1.skip(b - a) =~= t2);
    assert(t2.skip(c - b) =~= t3);
    assert(t3.skip(d - c) =~= t4);
    assert(t4.skip(e - d) =~= t5);
    assert(s.skip(a).skip(b - a) =~= s.skip(b));
    assert(s.skip(b).skip(c - b) =~= s.skip(c));
    assert(s.skip(c).skip(d - c) =~= s.skip(d));
    assert(s.skip(d).skip(e - d) =~= s.skip(e));
}

} // verus!
