//! The grammar, as functions from the text that is left to what a parser
//! reads there and how many characters it takes, or to the trace with which
//! it fails. The parsers' contracts are stated over these.

use vstd::prelude::*;
use crate::chars::CharClass;
use crate::error::{ErrorTag, Trace};
use crate::text::{caseless_prefix, decimal, has_at, lemma_run_len_bounds, run_len};
use crate::url::{HostView, Protocol, UrlView};

verus! {

/// What a parser does on a text: the value it reads and the number of
/// characters it takes, or the trace of its failure.
pub type Outcome<T> = Result<(T, int), Trace>;

/// The parser that `outcome` describes has read `value` at the start of
/// `input` and left `rest`.
pub open spec fn reads<T>(
    outcome: Outcome<T>,
    input: Seq<char>,
    value: T,
    rest: Seq<char>,
) -> bool {
    outcome matches Ok((v, n)) && v == value && 0 <= n <= input.len() && rest == input.skip(n)
}

/// The parser that `outcome` describes has failed with `trace`.
pub open spec fn fails<T>(outcome: Outcome<T>, trace: Trace) -> bool {
    outcome == Err::<(T, int), Trace>(trace)
}

/// The result of a parser, by its views, is what `outcome` describes on
/// `input`.
pub open spec fn agrees<T>(
    outcome: Outcome<T>,
    input: Seq<char>,
    result: Result<(Seq<char>, T), Trace>,
) -> bool {
    match result {
        Ok((rest, value)) => reads(outcome, input, value, rest),
        Err(trace) => fails(outcome, trace),
    }
}

/// The scheme of `Protocol::HTTP`, in lower case.
pub open spec fn http_literal() -> Seq<char> {
    seq!['h', 't', 't', 'p', ':', '/', '/']
}

/// The scheme of `Protocol::HTTPS`, in lower case.
pub open spec fn https_literal() -> Seq<char> {
    seq!['h', 't', 't', 'p', 's', ':', '/', '/']
}

/// The scheme: `http://` or `https://`, in any case, tried in this order.
#[verifier::opaque]
pub open spec fn spec_protocol(s: Seq<char>) -> Outcome<Protocol> {
    if caseless_prefix(http_literal(), s) {
        Ok((Protocol::HTTP, 7))
    } else if caseless_prefix(https_literal(), s) {
        Ok((Protocol::HTTPS, 8))
    } else {
        Err(seq![(s, ErrorTag::Tag), (s, ErrorTag::Alt), (s, ErrorTag::Context("protocol"))])
    }
}

/// The end of the longest sequence of labels that are each followed by a
/// dot, at the start of `s`.
pub open spec fn dotted_end(s: Seq<char>) -> int
    decreases s.len(),
{
    let k = run_len(s, CharClass::Label) as int;
    if k > 0 && has_at(s, k, '.') {
        k + 1 + dotted_end(s.skip(k + 1))
    } else {
        0
    }
}

/// The dotted form of a host name: one or more labels that are each followed
/// by a dot, then a label of letters. The result is the length of the name.
pub open spec fn spec_dotted(s: Seq<char>) -> Option<int> {
    let d = dotted_end(s);
    let last = run_len(s.skip(d), CharClass::Alpha) as int;
    if d > 0 && last > 0 {
        Some(d + last)
    } else {
        None
    }
}

/// The single-label form of a host name. The result is the length of the
/// label.
pub open spec fn spec_single_label(s: Seq<char>) -> Option<int> {
    let k = run_len(s, CharClass::Label) as int;
    if k > 0 {
        Some(k)
    } else {
        None
    }
}

/// The length of the digits of a number that is written with at most `max`
/// digits, at the start of `s`.
pub open spec fn digits_len(s: Seq<char>, max: int) -> int {
    let k = run_len(s, CharClass::Digit) as int;
    if k <= max {
        k
    } else {
        max
    }
}

/// A number of one to `max` digits that is at most `limit`.
pub open spec fn spec_number(s: Seq<char>, max: int, limit: nat) -> Outcome<nat> {
    let k = digits_len(s, max);
    if k == 0 {
        Err(seq![(s, ErrorTag::Digit)])
    } else if decimal(s.take(k)) > limit {
        Err(seq![(s, ErrorTag::OutOfRange)])
    } else {
        Ok((decimal(s.take(k)), k))
    }
}

/// One more octet behind what `sofar` has read of `s`.
#[verifier::opaque]
pub open spec fn then_octet(sofar: Outcome<Seq<u8>>, s: Seq<char>) -> Outcome<Seq<u8>> {
    match sofar {
        Ok((octets, n)) => match spec_number(s.skip(n), 3, 255) {
            Ok((octet, k)) => Ok((octets.push(octet as u8), n + k)),
            Err(trace) => Err(trace),
        },
        Err(trace) => Err(trace),
    }
}

/// A dot behind what `sofar` has read of `s`.
#[verifier::opaque]
pub open spec fn then_dot(sofar: Outcome<Seq<u8>>, s: Seq<char>) -> Outcome<Seq<u8>> {
    match sofar {
        Ok((octets, n)) => if has_at(s, n, '.') {
            Ok((octets, n + 1))
        } else {
            Err(seq![(s.skip(n), ErrorTag::Tag)])
        },
        Err(trace) => Err(trace),
    }
}

/// Four octets of one to three digits, each at most 255, with a dot between
/// them.
pub open spec fn spec_ipv4(s: Seq<char>) -> Outcome<Seq<u8>> {
    let first = then_octet(Ok((Seq::empty(), 0)), s);
    let second = then_octet(then_dot(first, s), s);
    let third = then_octet(then_dot(second, s), s);
    let fourth = then_octet(then_dot(third, s), s);
    match fourth {
        Ok(found) => Ok(found),
        Err(trace) => Err(trace.push((s, ErrorTag::Context("ipv4")))),
    }
}

/// The text that the separator joins the parts to.
pub open spec fn joined(parts: Seq<Seq<char>>, separator: Seq<char>) -> Seq<char>
    decreases parts.len(),
{
    if parts.len() == 0 {
        Seq::empty()
    } else if parts.len() == 1 {
        parts[0]
    } else {
        joined(parts.drop_last(), separator) + separator + parts.last()
    }
}

/// The name that the two components of a form of the host make: the last
/// label counts where it is not empty, and dots join the labels.
pub open spec fn name_of(labels: Seq<Seq<char>>, last: Seq<char>) -> Seq<char> {
    if last.len() > 0 {
        joined(labels.push(last), seq!['.'])
    } else {
        joined(labels, seq!['.'])
    }
}

/// The trace of the single-label form where the input has no label.
pub open spec fn single_label_trace(s: Seq<char>) -> Trace {
    seq![(s, ErrorTag::AlphaNumeric), (s, ErrorTag::ManyMN)]
}

/// The trace of a host that matches none of the forms: that of the form
/// tried last, the single label, inside the alternation and the host.
pub open spec fn host_trace(s: Seq<char>) -> Trace {
    seq![
        (s, ErrorTag::AlphaNumeric),
        (s, ErrorTag::ManyMN),
        (s, ErrorTag::Alt),
        (s, ErrorTag::Context("host")),
    ]
}

/// The host: the dotted form of a name, else an IPv4 address, else a single
/// label. The first form that matches is the one that is read.
#[verifier::opaque]
pub open spec fn spec_host(s: Seq<char>) -> Outcome<HostView> {
    match spec_dotted(s) {
        Some(n) => Ok((HostView::HOST(s.take(n)), n)),
        None => match spec_ipv4(s) {
            Ok((octets, n)) => Ok((HostView::IP(octets), n)),
            Err(_) => match spec_single_label(s) {
                Some(n) => Ok((HostView::HOST(s.take(n)), n)),
                None => Err(host_trace(s)),
            },
        },
    }
}

/// The port: nothing where `s` does not start with a colon; else one to five
/// digits behind the colon, which write a number of at most 65535.
#[verifier::opaque]
pub open spec fn spec_port(s: Seq<char>) -> Outcome<Option<u16>> {
    if has_at(s, 0, ':') {
        match spec_number(s.skip(1), 5, 65535) {
            Ok((port, k)) => Ok((Some(port as u16), 1 + k)),
            Err(trace) => Err(trace.push((s, ErrorTag::Context("port")))),
        }
    } else {
        Ok((None, 0))
    }
}

/// The segments at the start of `s`, each a slash and the characters up to
/// the next `/`, `?` or `#`, and the length of them all.
pub open spec fn spec_segments(s: Seq<char>) -> (Seq<Seq<char>>, int)
    decreases s.len(),
    via segments_shorten
{
    if has_at(s, 0, '/') {
        let k = run_len(s.skip(1), CharClass::Segment) as int;
        let more = spec_segments(s.skip(1 + k));
        (seq![s.subrange(1, 1 + k)] + more.0, 1 + k + more.1)
    } else {
        (Seq::empty(), 0)
    }
}

#[via_fn]
proof fn segments_shorten(s: Seq<char>) {
    if has_at(s, 0, '/') {
        lemma_run_len_bounds(s.skip(1), CharClass::Segment);
    }
}

/// The path: nothing where `s` does not start with a slash, else its
/// segments.
#[verifier::opaque]
pub open spec fn spec_path(s: Seq<char>) -> Outcome<Option<Seq<Seq<char>>>> {
    if has_at(s, 0, '/') {
        Ok((Some(spec_segments(s).0), spec_segments(s).1))
    } else {
        Ok((None, 0))
    }
}

/// A key, `=`, and a value. Key and value hold at least one character, and
/// none of `=`, `&` and `#`.
pub open spec fn spec_pair(s: Seq<char>) -> Outcome<(Seq<char>, Seq<char>)> {
    let k = run_len(s, CharClass::Pair) as int;
    let v = run_len(s.skip(k + 1), CharClass::Pair) as int;
    if k == 0 {
        Err(seq![(s, ErrorTag::TakeTill1)])
    } else if !has_at(s, k, '=') {
        Err(seq![(s.skip(k), ErrorTag::Tag)])
    } else if v == 0 {
        Err(seq![(s.skip(k + 1), ErrorTag::TakeTill1)])
    } else {
        Ok(((s.take(k), s.subrange(k + 1, k + 1 + v)), k + 1 + v))
    }
}

/// One or more pairs with `&` between them. A pair has to follow each `&`.
pub open spec fn spec_pairs(s: Seq<char>) -> Outcome<Seq<(Seq<char>, Seq<char>)>>
    decreases s.len(),
{
    match spec_pair(s) {
        Ok((pair, n)) => if has_at(s, n, '&') {
            match spec_pairs(s.skip(n + 1)) {
                Ok((more, m)) => Ok((seq![pair] + more, n + 1 + m)),
                Err(trace) => Err(trace),
            }
        } else {
            Ok((seq![pair], n))
        },
        Err(trace) => Err(trace),
    }
}

/// The query: nothing where `s` does not start with `?`, else the pairs
/// behind it.
#[verifier::opaque]
pub open spec fn spec_query(s: Seq<char>) -> Outcome<Option<Seq<(Seq<char>, Seq<char>)>>> {
    if has_at(s, 0, '?') {
        match spec_pairs(s.skip(1)) {
            Ok((pairs, n)) => Ok((Some(pairs), 1 + n)),
            Err(trace) => Err(trace.push((s, ErrorTag::Context("query")))),
        }
    } else {
        Ok((None, 0))
    }
}

/// The fragment: nothing where `s` does not start with `#`, else all that
/// follows it.
#[verifier::opaque]
pub open spec fn spec_fragment(s: Seq<char>) -> Outcome<Option<Seq<char>>> {
    if has_at(s, 0, '#') {
        Ok((Some(s.skip(1)), s.len() as int))
    } else {
        Ok((None, 0))
    }
}

/// The parts of a URL one after the other, each on what the one before it
/// left. The trace of a part that fails is the trace of the whole.
pub open spec fn spec_url_prefix(s: Seq<char>) -> Outcome<UrlView> {
    match spec_protocol(s) {
        Err(trace) => Err(trace),
        Ok((protocol, a)) => match spec_host(s.skip(a)) {
            Err(trace) => Err(trace),
            Ok((host, b)) => match spec_port(s.skip(a + b)) {
                Err(trace) => Err(trace),
                Ok((port, c)) => match spec_path(s.skip(a + b + c)) {
                    Err(trace) => Err(trace),
                    Ok((path, d)) => match spec_query(s.skip(a + b + c + d)) {
                        Err(trace) => Err(trace),
                        Ok((query, e)) => match spec_fragment(s.skip(a + b + c + d + e)) {
                            Err(trace) => Err(trace),
                            Ok((fragment, f)) => Ok(
                                (
                                    UrlView { protocol, host, port, path, query, fragment },
                                    a + b + c + d + e + f,
                                ),
                            ),
                        },
                    },
                },
            },
        },
    }
}

/// A URL that takes all of `s`: what is left behind the last part is a
/// failure of its own.
pub open spec fn spec_url(s: Seq<char>) -> Result<UrlView, Trace> {
    match spec_url_prefix(s) {
        Err(trace) => Err(trace),
        Ok((url, n)) => if n == s.len() {
            Ok(url)
        } else {
            Err(seq![(s.skip(n), ErrorTag::Eof)])
        },
    }
}

} // verus!
