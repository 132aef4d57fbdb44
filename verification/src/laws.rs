//! What holds of the parsers on every input.

use vstd::prelude::*;
use crate::chars::{fold, CharClass};
use crate::error::{ErrorTag, Trace};
use crate::frames::{
    frames_within, lemma_address_frames, lemma_frames_of_rest, lemma_frames_push,
    lemma_number_frames, lemma_pairs_frames, lemma_part_bounds, lemma_rest,
};
use crate::grammar::{
    agrees, http_literal, https_literal, spec_dotted, spec_fragment, spec_host, spec_ipv4,
    spec_number, spec_pairs, spec_path, spec_port, spec_protocol, spec_query, spec_single_label,
    spec_url, spec_url_prefix, then_dot, then_octet, Outcome,
};
use crate::host::lemma_dotted_end_bounds;
use crate::reading::{
    lemma_fragment_read, lemma_host_read, lemma_host_well_formed, lemma_pairs_read,
    lemma_parts_make_the_text, lemma_parts_of_url, lemma_path_read, lemma_port_read,
    lemma_query_read, lemma_scheme_read, lemma_segments_read, written_of,
};
use crate::render::{
    lemma_digits_are_numbers, lemma_digits_of, render, well_formed_url, written_form,
};
use crate::text::{caseless_eq, caseless_prefix, has_at, run_len};
use crate::url::{HostView, UrlView};
use crate::written::{
    fragment_text, host_of, host_text, is_written, path_text, port_text, query_text, text_of,
    url_of, well_formed, Written,
};
use crate::written_host::lemma_host_written;
use crate::written_parts::{
    lemma_fragment_written, lemma_path_written, lemma_port_written, lemma_query_written,
    lemma_scheme_written, lemma_written_splits, lemma_written_tails,
};

verus! {

/// Every text that is put together from parts of the grammar parses, and the
/// URL that comes out holds the parts: the name of the host, the segments of
/// the path, the pairs of the query and the fragment as they were written,
/// the protocol of the scheme, and the numbers that the digits of the port
/// and of an address write.
pub proof fn law_written_url_is_read(w: Written)
    requires
        is_written(w),
    ensures
        spec_url(text_of(w)) == Ok::<_, Trace>(url_of(w)),
        spec_url_prefix(text_of(w)) == Ok::<_, Trace>((url_of(w), text_of(w).len() as int)),
{
    let t5 = fragment_text(w.fragment);
    let t4 = query_text(w.query) + t5;
    let t3 = path_text(w.path) + t4;
    let t2 = port_text(w.port) + t3;
    let t1 = host_text(w.host) + t2;
    lemma_written_splits(w);
    lemma_written_tails(w);
    lemma_scheme_written(w.scheme, t1);
    lemma_host_written(w.host, t2);
    lemma_port_written(w.port, t3);
    lemma_path_written(w.path, t4);
    lemma_query_written(w.query, t5);
    lemma_fragment_written(w.fragment);
}

/// Every text that parses as a URL is put together from parts of the
/// grammar, and the URL that is read is the one that the parts denote: the
/// texts that parse are the texts of written URLs, and no others.
pub proof fn law_read_url_is_written(s: Seq<char>)
    requires
        spec_url(s) is Ok,
    ensures
        is_written(written_of(s)),
        text_of(written_of(s)) == s,
        url_of(written_of(s)) == spec_url(s)->Ok_0,
{
    let w = written_of(s);
    let url = spec_url(s)->Ok_0;
    let a = spec_protocol(s)->Ok_0.1;
    let b = a + spec_host(s.skip(a))->Ok_0.1;
    let c = b + spec_port(s.skip(b))->Ok_0.1;
    let d = c + spec_path(s.skip(c))->Ok_0.1;
    let e = d + spec_query(s.skip(d))->Ok_0.1;
    lemma_parts_of_url(s);
    law_url_is_well_formed(s);
    lemma_scheme_read(s);
    lemma_host_read(s.skip(a));
    lemma_port_read(s.skip(b));
    lemma_path_read(s.skip(c));
    lemma_query_read(s.skip(d));
    lemma_fragment_read(s.skip(e));
    lemma_parts_make_the_text(s, a, b, c, d, e);
    assert(s.skip(e).take(s.skip(e).len() as int) =~= s.skip(e));
}

/// A well-formed URL that is written out is read as itself: the scheme in
/// lower case, the name of the host or the decimal digits of its four
/// octets, the decimal digits of the port behind a colon, each segment of
/// the path behind a slash, the pairs of the query behind `?` with `&`
/// between them, and the fragment behind `#`.
pub proof fn law_rendered_url_is_read(url: UrlView)
    requires
        well_formed_url(url),
    ensures
        spec_url(render(url)) == Ok::<_, Trace>(url),
{
    let w = written_form(url);
    assert(caseless_eq(http_literal(), http_literal()));
    assert(caseless_eq(https_literal(), https_literal()));
    assert(!caseless_eq(https_literal(), http_literal()));
    match url.host {
        HostView::HOST(name) => {},
        HostView::IP(octets) => {
            lemma_digits_are_numbers(octets[0] as nat);
            lemma_digits_are_numbers(octets[1] as nat);
            lemma_digits_are_numbers(octets[2] as nat);
            lemma_digits_are_numbers(octets[3] as nat);
            lemma_digits_of(octets[0] as nat);
            lemma_digits_of(octets[1] as nat);
            lemma_digits_of(octets[2] as nat);
            lemma_digits_of(octets[3] as nat);
            assert(host_of(w.host)->IP_0 =~= octets);
        },
    }
    if let Some(port) = url.port {
        lemma_digits_are_numbers(port as nat);
        lemma_digits_of(port as nat);
    }
    assert(is_written(w));
    assert(url_of(w) == url);
    law_written_url_is_read(w);
}

/// The URL that is read is well formed: its host is, its path has at least
/// one segment, its query at least one pair, and no segment, key or value
/// holds a delimiter that would end it.
pub proof fn law_url_is_well_formed(s: Seq<char>)
    ensures
        spec_url_prefix(s) matches Ok((url, n)) ==> well_formed_url(url),
        spec_url(s) matches Ok(url) ==> well_formed_url(url),
{
    reveal(spec_path);
    reveal(spec_query);
    if let Ok((url, n)) = spec_url_prefix(s) {
        let a = spec_protocol(s)->Ok_0.1;
        let b = a + spec_host(s.skip(a))->Ok_0.1;
        let c = b + spec_port(s.skip(b))->Ok_0.1;
        let d = c + spec_path(s.skip(c))->Ok_0.1;
        lemma_host_well_formed(s.skip(a));
        lemma_segments_read(s.skip(c));
        if has_at(s.skip(d), 0, '?') {
            lemma_pairs_read(s.skip(d).skip(1));
        }
    }
}

/// The host that is read is well formed: a name is a single label or labels
/// with dots between them of which the last is made of letters, and no label
/// of it is empty; an address has four octets.
pub proof fn law_host_is_well_formed(s: Seq<char>)
    ensures
        spec_host(s) matches Ok((host, n)) ==> well_formed(host) && 0 < n <= s.len(),
{
    lemma_host_well_formed(s);
}

/// A parser has one result on an input: two results that both are what the
/// grammar describes on the same input are the same, value for value, rest
/// for rest and frame for frame. It holds of every parser of this library,
/// whose contracts are stated in this form.
pub proof fn law_same_input_same_result<T>(
    outcome: Outcome<T>,
    input: Seq<char>,
    first: Result<(Seq<char>, T), Trace>,
    second: Result<(Seq<char>, T), Trace>,
)
    requires
        agrees(outcome, input, first),
        agrees(outcome, input, second),
    ensures
        first == second,
{
}

/// Where the dotted form of a name matches, the single-label form matches a
/// shorter text at the same place, and the host that is read is that of the
/// dotted form, which is tried first.
pub proof fn law_dotted_name_comes_first(s: Seq<char>)
    requires
        spec_dotted(s) is Some,
    ensures
        spec_single_label(s) matches Some(label) && spec_dotted(s) matches Some(name) && label
            < name && spec_host(s) == Ok::<_, Trace>((HostView::HOST(s.take(name)), name)),
{
    reveal(spec_host);
    lemma_dotted_end_bounds(s.skip(run_len(s, CharClass::Label) as int + 1));
}

/// Where an address matches and the dotted form of a name does not, the
/// single-label form matches at the same place as well, and the host that is
/// read is the address, which is tried before it.
pub proof fn law_address_comes_before_label(s: Seq<char>)
    requires
        spec_dotted(s) is None,
        spec_ipv4(s) is Ok,
    ensures
        spec_single_label(s) is Some,
        spec_ipv4(s) matches Ok((octets, n)) && spec_host(s) == Ok::<_, Trace>(
            (HostView::IP(octets), n),
        ),
{
    reveal(spec_host);
    reveal(then_octet);
    reveal(then_dot);
    assert(s.skip(0) =~= s);
    let k = run_len(s, CharClass::Digit);
    assert(k > 0);
    assert(CharClass::Digit.contains(s[0]));
}

/// No text starts with both schemes: the order in which they are tried
/// decides nothing.
pub proof fn law_schemes_exclude_each_other(s: Seq<char>)
    ensures
        !(caseless_prefix(http_literal(), s) && caseless_prefix(https_literal(), s)),
{
    if caseless_prefix(http_literal(), s) && caseless_prefix(https_literal(), s) {
        assert(s.take(7)[4] == s.take(8)[4]);
        assert(fold(s.take(7)[4]) == fold(http_literal()[4]));
        assert(fold(s.take(8)[4]) == fold(https_literal()[4]));
    }
}

/// Every frame of a part that fails is at a place of the text at which the
/// part was tried. The path and the fragment never fail.
pub proof fn law_frames_of_a_part_are_places(s: Seq<char>)
    ensures
        spec_protocol(s) matches Err(trace) ==> frames_within(trace, s),
        spec_host(s) matches Err(trace) ==> frames_within(trace, s),
        spec_ipv4(s) matches Err(trace) ==> frames_within(trace, s),
        spec_port(s) matches Err(trace) ==> frames_within(trace, s),
        spec_path(s) is Ok,
        spec_pairs(s) matches Err(trace) ==> frames_within(trace, s),
        spec_query(s) matches Err(trace) ==> frames_within(trace, s),
        spec_fragment(s) is Ok,
{
    lemma_address_frames(s);
    lemma_pairs_frames(s);
    reveal(spec_protocol);
    reveal(spec_host);
    reveal(spec_port);
    reveal(spec_path);
    reveal(spec_query);
    reveal(spec_fragment);
    lemma_rest(s, 0);
    if has_at(s, 0, ':') {
        lemma_number_frames(s.skip(1), 5, 65535);
        if let Err(trace) = spec_number(s.skip(1), 5, 65535) {
            lemma_frames_of_rest(trace, s, 1);
            lemma_frames_push(trace, s, s, ErrorTag::Context("port"));
        }
    }
    if has_at(s, 0, '?') {
        lemma_pairs_frames(s.skip(1));
        if let Err(trace) = spec_pairs(s.skip(1)) {
            lemma_frames_of_rest(trace, s, 1);
            lemma_frames_push(trace, s, s, ErrorTag::Context("query"));
        }
    }
}

/// Every frame of a failed parse is at a place of the input: the text that
/// the frame holds is what the input has from that place on, so that the
/// place is the length of the input less the length of that text.
pub proof fn law_frames_are_places_of_the_input(s: Seq<char>)
    ensures
        spec_url_prefix(s) matches Err(trace) ==> frames_within(trace, s),
        spec_url(s) matches Err(trace) ==> frames_within(trace, s),
        spec_url_prefix(s) matches Ok((url, n)) ==> 0 <= n <= s.len(),
{
    law_frames_of_a_part_are_places(s);
    lemma_part_bounds(s);
    if let Ok((protocol, a)) = spec_protocol(s) {
        let s1 = s.skip(a);
        law_frames_of_a_part_are_places(s1);
        lemma_part_bounds(s1);
        match spec_host(s1) {
            Err(trace) => {
                lemma_frames_of_rest(trace, s, a);
            },
            Ok((host, b)) => {
                let s2 = s.skip(a + b);
                assert(s1.skip(b) =~= s2);
                law_frames_of_a_part_are_places(s2);
                lemma_part_bounds(s2);
                match spec_port(s2) {
                    Err(trace) => {
                        lemma_frames_of_rest(trace, s, a + b);
                    },
                    Ok((port, c)) => {
                        let s3 = s.skip(a + b + c);
                        assert(s2.skip(c) =~= s3);
                        law_frames_of_a_part_are_places(s3);
                        lemma_part_bounds(s3);
                        let d = spec_path(s3)->Ok_0.1;
                        let s4 = s.skip(a + b + c + d);
                        assert(s3.skip(d) =~= s4);
                        law_frames_of_a_part_are_places(s4);
                        lemma_part_bounds(s4);
                        match spec_query(s4) {
                            Err(trace) => {
                                lemma_frames_of_rest(trace, s, a + b + c + d);
                            },
                            Ok((query, e)) => {
                                let s5 = s.skip(a + b + c + d + e);
                                assert(s4.skip(e) =~= s5);
                                law_frames_of_a_part_are_places(s5);
                                lemma_part_bounds(s5);
                                let f = spec_fragment(s5)->Ok_0.1;
                                let n = a + b + c + d + e + f;
                                lemma_rest(s, n);
                                let left: Trace = seq![(s.skip(n), ErrorTag::Eof)];
                                assert(frames_within(left, s));
                            },
                        }
                    },
                }
            },
        }
    }
}

} // verus!
