//! The texts of the parts of a URL, taken from a text that parses: the way
//! back from what was read to what was written.

use vstd::prelude::*;
use crate::chars::CharClass;
use crate::grammar::{
    digits_len, dotted_end, http_literal, https_literal, spec_dotted, spec_fragment, spec_host,
    spec_ipv4, spec_number, spec_pair, spec_pairs, spec_path, spec_port, spec_protocol, spec_query,
    spec_segments, spec_single_label, spec_url_prefix, then_dot, then_octet, Outcome,
};
use crate::number::lemma_number_bounds;
use crate::path::lemma_segments_bounds;
use crate::query::lemma_pair_bounds;
use crate::text::{all_in, caseless_eq, decimal, has_at, lemma_run_len_bounds, run_len};
use crate::url::{HostView, Protocol};
use crate::written::{
    ends_in_letters, fragment_text, host_of, host_text, is_host, is_labels, is_number, is_pair,
    is_pairs, is_segments, pair_text, pairs_text, path_text, port_of, port_text,
    query_text, segments_text, well_formed, Written, WrittenHost,
};

verus! {

/// The texts of the four numbers of an address at the start of `s`.
pub open spec fn address_texts(s: Seq<char>) -> Seq<Seq<char>> {
    let k0 = digits_len(s, 3);
    let at1 = k0 + 1;
    let k1 = digits_len(s.skip(at1), 3);
    let at2 = at1 + k1 + 1;
    let k2 = digits_len(s.skip(at2), 3);
    let at3 = at2 + k2 + 1;
    let k3 = digits_len(s.skip(at3), 3);
    seq![
        s.subrange(0, k0),
        s.subrange(at1, at1 + k1),
        s.subrange(at2, at2 + k2),
        s.subrange(at3, at3 + k3),
    ]
}

/// The text of the host at the start of `s`, where there is one.
pub open spec fn host_written(s: Seq<char>) -> WrittenHost {
    match spec_host(s) {
        Ok((HostView::IP(_), _)) => WrittenHost::Address(address_texts(s)),
        Ok((HostView::HOST(name), _)) => WrittenHost::Name(name),
        Err(_) => WrittenHost::Name(Seq::empty()),
    }
}

/// The digits of the port at the start of `s`, where there is one.
pub open spec fn port_written(s: Seq<char>) -> Option<Seq<char>> {
    match spec_port(s) {
        Ok((Some(_), n)) => Some(s.subrange(1, n)),
        _ => None,
    }
}

/// The texts of the parts of the URL that `s` holds, where it parses.
pub open spec fn written_of(s: Seq<char>) -> Written {
    let a = spec_protocol(s)->Ok_0.1;
    let b = a + spec_host(s.skip(a))->Ok_0.1;
    let c = b + spec_port(s.skip(b))->Ok_0.1;
    let d = c + spec_path(s.skip(c))->Ok_0.1;
    let e = d + spec_query(s.skip(d))->Ok_0.1;
    Written {
        scheme: s.take(a),
        host: host_written(s.skip(a)),
        port: port_written(s.skip(b)),
        path: spec_path(s.skip(c))->Ok_0.0,
        query: spec_query(s.skip(d))->Ok_0.0,
        fragment: spec_fragment(s.skip(e))->Ok_0.0,
    }
}

/// A text is what it has up to a place and what it has from there on.
pub proof fn lemma_take_skip(s: Seq<char>, n: int)
    requires
        0 <= n <= s.len(),
    ensures
        s == s.take(n) + s.skip(n),
{
    assert(s =~= s.take(n) + s.skip(n));
}

/// The scheme that is read is written at the start of the text.
pub proof fn lemma_scheme_read(s: Seq<char>)
    ensures
        spec_protocol(s) matches Ok((protocol, n)) ==> {
            &&& 0 <= n <= s.len()
            &&& caseless_eq(s.take(n), http_literal()) || caseless_eq(s.take(n), https_literal())
            &&& Protocol::of_literal(s.take(n)) == protocol
        },
{
    reveal(spec_protocol);
}

/// The number that is read is written by the digits at the start of the
/// text.
pub proof fn lemma_number_read(s: Seq<char>, max: int, limit: nat)
    requires
        0 <= max,
    ensures
        spec_number(s, max, limit) matches Ok((value, n)) ==> {
            &&& 1 <= n <= s.len()
            &&& is_number(s.take(n), max, limit)
            &&& decimal(s.take(n)) == value
        },
{
    lemma_run_len_bounds(s, CharClass::Digit);
    if let Ok((value, n)) = spec_number(s, max, limit) {
        let k = run_len(s, CharClass::Digit) as int;
        assert forall|i: int| 0 <= i < n implies CharClass::Digit.contains(
            #[trigger] s.take(n)[i],
        ) by {
            assert(s.take(n)[i] == s.take(k)[i]);
        }
    }
}

/// The port that is read is written at the start of the text.
pub proof fn lemma_port_read(s: Seq<char>)
    ensures
        spec_port(s) matches Ok((port, n)) ==> {
            &&& 0 <= n <= s.len()
            &&& port_written(s) matches Some(digits) ==> is_number(digits, 5, 65535)
            &&& port_text(port_written(s)) == s.take(n)
            &&& port_of(port_written(s)) == port
        },
{
    reveal(spec_port);
    if has_at(s, 0, ':') {
        lemma_number_read(s.skip(1), 5, 65535);
        if let Ok((value, k)) = spec_number(s.skip(1), 5, 65535) {
            assert(s.subrange(1, 1 + k) =~= s.skip(1).take(k));
            assert(seq![':'] + s.subrange(1, 1 + k) =~= s.take(1 + k));
        }
    } else {
        assert(s.take(0) =~= Seq::<char>::empty());
    }
}

/// The segments that are read are written at the start of the text.
pub proof fn lemma_segments_text(s: Seq<char>)
    ensures
        segments_text(spec_segments(s).0) == s.take(spec_segments(s).1),
    decreases s.len(),
{
    lemma_segments_bounds(s);
    if has_at(s, 0, '/') {
        lemma_run_len_bounds(s.skip(1), CharClass::Segment);
        let k = run_len(s.skip(1), CharClass::Segment) as int;
        let behind = s.skip(1 + k);
        let more = spec_segments(behind);
        let first = s.subrange(1, 1 + k);
        let all = seq![first] + more.0;
        lemma_segments_text(behind);
        lemma_segments_bounds(behind);
        assert(all[0] == first);
        assert(all.skip(1) =~= more.0);
        assert(seq!['/'] + first + behind.take(more.1) =~= s.take(1 + k + more.1));
    } else {
        assert(s.take(0) =~= Seq::<char>::empty());
    }
}

/// The path that is read is written at the start of the text.
pub proof fn lemma_path_read(s: Seq<char>)
    ensures
        spec_path(s) matches Ok((path, n)) && 0 <= n <= s.len() && path_text(path) == s.take(n),
{
    reveal(spec_path);
    lemma_segments_text(s);
    lemma_segments_bounds(s);
    assert(s.take(0) =~= Seq::<char>::empty());
}

/// The pair that is read is written at the start of the text.
pub proof fn lemma_pair_text(s: Seq<char>)
    ensures
        spec_pair(s) matches Ok((pair, n)) ==> pair_text(pair) == s.take(n),
{
    lemma_pair_bounds(s);
    if let Ok((pair, n)) = spec_pair(s) {
        let k = run_len(s, CharClass::Pair) as int;
        assert(pair.0 + seq!['='] + pair.1 =~= s.take(n));
    }
}

/// The pairs that are read are written at the start of the text.
pub proof fn lemma_pairs_text(s: Seq<char>)
    ensures
        spec_pairs(s) matches Ok((pairs, n)) ==> 0 <= n <= s.len() && pairs_text(pairs)
            == s.take(n),
    decreases s.len(),
{
    lemma_pair_bounds(s);
    lemma_pair_text(s);
    if let Ok((pair, n)) = spec_pair(s) {
        if has_at(s, n, '&') {
            let behind = s.skip(n + 1);
            lemma_pairs_text(behind);
            if let Ok((more, m)) = spec_pairs(behind) {
                let all = seq![pair] + more;
                lemma_pairs_nonempty(behind);
                assert(all[0] == pair);
                assert(all.skip(1) =~= more);
                assert(s.take(n) + seq!['&'] + behind.take(m) =~= s.take(n + 1 + m));
            }
        } else {
            assert(seq![pair][0] == pair);
        }
    }
}

/// Pairs that are read are at least one.
pub proof fn lemma_pairs_nonempty(s: Seq<char>)
    ensures
        spec_pairs(s) matches Ok((pairs, n)) ==> pairs.len() > 0,
{
}

/// The query that is read is written at the start of the text.
pub proof fn lemma_query_read(s: Seq<char>)
    ensures
        spec_query(s) matches Ok((query, n)) ==> 0 <= n <= s.len() && query_text(query)
            == s.take(n),
{
    reveal(spec_query);
    if has_at(s, 0, '?') {
        lemma_pairs_text(s.skip(1));
        if let Ok((pairs, n)) = spec_pairs(s.skip(1)) {
            assert(seq!['?'] + s.skip(1).take(n) =~= s.take(1 + n));
        }
    } else {
        assert(s.take(0) =~= Seq::<char>::empty());
    }
}

/// The fragment that is read is written at the start of the text, and is
/// all of it.
pub proof fn lemma_fragment_read(s: Seq<char>)
    ensures
        spec_fragment(s) matches Ok((fragment, n)) && 0 <= n <= s.len() && fragment_text(
            fragment,
        ) == s.take(n) && (fragment is Some ==> n == s.len()),
{
    reveal(spec_fragment);
    if has_at(s, 0, '#') {
        assert(seq!['#'] + s.skip(1) =~= s.take(s.len() as int));
    } else {
        assert(s.take(0) =~= Seq::<char>::empty());
    }
}

/// Where an address is read, each of its four numbers is read at its place,
/// a dot stands behind each of the first three, and the address ends behind
/// the fourth.
proof fn lemma_address_places(s: Seq<char>)
    requires
        spec_ipv4(s) is Ok,
    ensures
        ({
            let k0 = digits_len(s, 3);
            let at1 = k0 + 1;
            let k1 = digits_len(s.skip(at1), 3);
            let at2 = at1 + k1 + 1;
            let k2 = digits_len(s.skip(at2), 3);
            let at3 = at2 + k2 + 1;
            let k3 = digits_len(s.skip(at3), 3);
            &&& spec_number(s, 3, 255) matches Ok((v0, n0)) && n0 == k0
            &&& spec_number(s.skip(at1), 3, 255) matches Ok((v1, n1)) && n1 == k1
            &&& spec_number(s.skip(at2), 3, 255) matches Ok((v2, n2)) && n2 == k2
            &&& spec_number(s.skip(at3), 3, 255) matches Ok((v3, n3)) && n3 == k3
            &&& has_at(s, at1 - 1, '.')
            &&& has_at(s, at2 - 1, '.')
            &&& has_at(s, at3 - 1, '.')
            &&& 1 <= k0 && 1 <= k1 && 1 <= k2 && 1 <= k3
            &&& at3 + k3 <= s.len()
            &&& spec_ipv4(s)->Ok_0.1 == at3 + k3
            &&& spec_ipv4(s)->Ok_0.0 == seq![
                spec_number(s, 3, 255)->Ok_0.0 as u8,
                spec_number(s.skip(at1), 3, 255)->Ok_0.0 as u8,
                spec_number(s.skip(at2), 3, 255)->Ok_0.0 as u8,
                spec_number(s.skip(at3), 3, 255)->Ok_0.0 as u8,
            ]
        }),
{
    reveal(then_octet);
    reveal(then_dot);
    let k0 = digits_len(s, 3);
    let at1 = k0 + 1;
    let k1 = digits_len(s.skip(at1), 3);
    let at2 = at1 + k1 + 1;
    let k2 = digits_len(s.skip(at2), 3);
    let at3 = at2 + k2 + 1;
    let k3 = digits_len(s.skip(at3), 3);
    assert(s.skip(0) =~= s);
    let start: Outcome<Seq<u8>> = Ok((Seq::empty(), 0));
    let first = then_octet(start, s);
    let second = then_octet(then_dot(first, s), s);
    let third = then_octet(then_dot(second, s), s);
    let fourth = then_octet(then_dot(third, s), s);
    assert(fourth is Ok);
    lemma_number_bounds(s, 3, 255);
    lemma_number_bounds(s.skip(at1), 3, 255);
    lemma_number_bounds(s.skip(at2), 3, 255);
    lemma_number_bounds(s.skip(at3), 3, 255);
    assert(fourth->Ok_0.0 =~= seq![
        spec_number(s, 3, 255)->Ok_0.0 as u8,
        spec_number(s.skip(at1), 3, 255)->Ok_0.0 as u8,
        spec_number(s.skip(at2), 3, 255)->Ok_0.0 as u8,
        spec_number(s.skip(at3), 3, 255)->Ok_0.0 as u8,
    ]);
}

/// Four texts with dots between them, each at its place in `s`, are what
/// `s` has up to the end of the fourth.
proof fn lemma_address_text(s: Seq<char>, k0: int, k1: int, k2: int, k3: int)
    requires
        0 <= k0 && 0 <= k1 && 0 <= k2 && 0 <= k3,
        k0 + 1 + k1 + 1 + k2 + 1 + k3 <= s.len(),
        s[k0] == '.',
        s[k0 + 1 + k1] == '.',
        s[k0 + 1 + k1 + 1 + k2] == '.',
    ensures
        ({
            let at1 = k0 + 1;
            let at2 = at1 + k1 + 1;
            let at3 = at2 + k2 + 1;
            s.subrange(0, k0) + seq!['.'] + s.subrange(at1, at1 + k1) + seq!['.'] + s.subrange(
                at2,
                at2 + k2,
            ) + seq!['.'] + s.subrange(at3, at3 + k3) == s.take(at3 + k3)
        }),
{
    let at1 = k0 + 1;
    let at2 = at1 + k1 + 1;
    let at3 = at2 + k2 + 1;
    let dot = seq!['.'];
    let one = s.subrange(0, k0) + dot;
    assert(one =~= s.take(at1));
    let two = one + s.subrange(at1, at1 + k1) + dot;
    assert(two =~= s.take(at2));
    let three = two + s.subrange(at2, at2 + k2) + dot;
    assert(three =~= s.take(at3));
    assert(three + s.subrange(at3, at3 + k3) =~= s.take(at3 + k3));
}

/// The address that is read is written at the start of the text.
pub proof fn lemma_address_read(s: Seq<char>)
    requires
        spec_ipv4(s) is Ok,
    ensures
        ({
            let texts = WrittenHost::Address(address_texts(s));
            &&& address_texts(s).len() == 4
            &&& forall|i: int| 0 <= i < 4 ==> is_number(#[trigger] address_texts(s)[i], 3, 255)
            &&& host_text(texts) == s.take(spec_ipv4(s)->Ok_0.1)
            &&& host_of(texts) == HostView::IP(spec_ipv4(s)->Ok_0.0)
        }),
{
    let k0 = digits_len(s, 3);
    let at1 = k0 + 1;
    let k1 = digits_len(s.skip(at1), 3);
    let at2 = at1 + k1 + 1;
    let k2 = digits_len(s.skip(at2), 3);
    let at3 = at2 + k2 + 1;
    let k3 = digits_len(s.skip(at3), 3);
    lemma_address_places(s);
    lemma_number_read(s, 3, 255);
    lemma_number_read(s.skip(at1), 3, 255);
    lemma_number_read(s.skip(at2), 3, 255);
    lemma_number_read(s.skip(at3), 3, 255);
    assert(s.subrange(0, k0) =~= s.take(k0));
    assert(s.subrange(at1, at1 + k1) =~= s.skip(at1).take(k1));
    assert(s.subrange(at2, at2 + k2) =~= s.skip(at2).take(k2));
    assert(s.subrange(at3, at3 + k3) =~= s.skip(at3).take(k3));
    lemma_address_text(s, k0, k1, k2, k3);
    let texts = address_texts(s);
    assert(host_of(WrittenHost::Address(texts))->IP_0 =~= spec_ipv4(s)->Ok_0.0);
}

/// The labels that a dot follows, at the start of a text: they are made of
/// the characters of labels and of dots, none of them is empty, and a dot
/// ends them.
pub proof fn lemma_dotted_end_shape(s: Seq<char>)
    ensures
        ({
            let d = dotted_end(s);
            &&& 0 <= d <= s.len()
            &&& forall|i: int|
                0 <= i < d ==> CharClass::Label.contains(#[trigger] s[i]) || s[i] == '.'
            &&& d > 0 ==> s[0] != '.' && s[d - 1] == '.'
            &&& forall|i: int| 0 <= i < d - 1 ==> !(#[trigger] s[i] == '.' && s[i + 1] == '.')
        }),
    decreases s.len(),
{
    let k = run_len(s, CharClass::Label) as int;
    let d = dotted_end(s);
    lemma_run_len_bounds(s, CharClass::Label);
    if k > 0 && has_at(s, k, '.') {
        let r = s.skip(k + 1);
        let e = dotted_end(r);
        lemma_dotted_end_shape(r);
        assert(d == k + 1 + e);
        assert forall|i: int| 0 <= i < k implies CharClass::Label.contains(#[trigger] s[i]) by {
            assert(s.take(k)[i] == s[i]);
        }
        assert forall|i: int| 0 <= i < d implies CharClass::Label.contains(#[trigger] s[i])
            || s[i] == '.' by {
            if i > k {
                assert(s[i] == r[i - k - 1]);
            }
        }
        assert(s[d - 1] == '.') by {
            if e > 0 {
                assert(s[d - 1] == r[e - 1]);
            }
        }
        assert forall|i: int| 0 <= i < d - 1 implies !(#[trigger] s[i] == '.' && s[i + 1]
            == '.') by {
            if i == k {
                assert(s[k + 1] == r[0]);
            } else if i > k {
                assert(s[i] == r[i - k - 1]);
                assert(s[i + 1] == r[i - k]);
            }
        }
    }
}

/// A host that is read is well formed, and takes at least one character.
pub proof fn lemma_host_well_formed(s: Seq<char>)
    ensures
        spec_host(s) matches Ok((host, n)) ==> well_formed(host) && 0 < n <= s.len(),
{
    reveal(spec_host);
    reveal(then_octet);
    reveal(then_dot);
    lemma_run_len_bounds(s, CharClass::Label);
    match spec_dotted(s) {
        Some(n) => {
            let d = dotted_end(s);
            let name = s.take(n);
            lemma_dotted_end_shape(s);
            lemma_run_len_bounds(s.skip(d), CharClass::Alpha);
            assert forall|i: int| d <= i < n implies CharClass::Alpha.contains(
                #[trigger] name[i],
            ) by {
                assert(name[i] == s.skip(d).take(n - d)[i - d]);
            }
            assert(is_labels(name)) by {
                assert forall|i: int| 0 <= i < n implies CharClass::Label.contains(
                    #[trigger] name[i],
                ) || name[i] == '.' by {
                    if i < d {
                        assert(name[i] == s[i]);
                    } else {
                        assert(CharClass::Alpha.contains(name[i]));
                    }
                }
                assert(name[0] == s[0]);
                assert(CharClass::Alpha.contains(name[n - 1]));
                assert forall|i: int| 0 <= i < n - 1 implies !(#[trigger] name[i] == '.'
                    && name[i + 1] == '.') by {
                    if i < d - 1 {
                        assert(name[i] == s[i] && name[i + 1] == s[i + 1]);
                    } else {
                        assert(CharClass::Alpha.contains(name[i + 1]));
                    }
                }
            }
            assert(ends_in_letters(name, d - 1)) by {
                assert(name[d - 1] == s[d - 1]);
                assert forall|i: int| d - 1 < i < n implies crate::chars::is_alpha(
                    #[trigger] name[i],
                ) by {
                    assert(CharClass::Alpha.contains(name[i]));
                }
            }
        },
        None => match spec_ipv4(s) {
            Ok((octets, n)) => {
                lemma_address_bounds(s);
            },
            Err(_) => match spec_single_label(s) {
                Some(n) => {
                    let name = s.take(n);
                    assert(CharClass::Label.contains(name[0]));
                    assert(CharClass::Label.contains(name[n - 1]));
                    assert forall|i: int| 0 <= i < n - 1 implies !(#[trigger] name[i] == '.'
                        && name[i + 1] == '.') by {
                        assert(CharClass::Label.contains(name[i]));
                    }
                },
                None => {},
            },
        },
    }
}

/// An address that is read has four octets and ends inside the text.
pub proof fn lemma_address_bounds(s: Seq<char>)
    ensures
        spec_ipv4(s) matches Ok((octets, n)) ==> octets.len() == 4 && 0 < n <= s.len(),
{
    reveal(then_octet);
    reveal(then_dot);
    let first = then_octet(Ok((Seq::empty(), 0)), s);
    let second = then_octet(then_dot(first, s), s);
    let third = then_octet(then_dot(second, s), s);
    let fourth = then_octet(then_dot(third, s), s);
    if fourth is Ok {
        lemma_number_bounds(s.skip(0), 3, 255);
        lemma_number_bounds(s.skip(then_dot(first, s)->Ok_0.1), 3, 255);
        lemma_number_bounds(s.skip(then_dot(second, s)->Ok_0.1), 3, 255);
        lemma_number_bounds(s.skip(then_dot(third, s)->Ok_0.1), 3, 255);
    }
}

/// The segments that are read hold none of `/`, `?` and `#`, and there is
/// one where the text starts with a slash.
pub proof fn lemma_segments_read(s: Seq<char>)
    ensures
        is_segments(spec_segments(s).0),
        (spec_segments(s).0.len() > 0) == has_at(s, 0, '/'),
    decreases s.len(),
{
    if has_at(s, 0, '/') {
        lemma_run_len_bounds(s.skip(1), CharClass::Segment);
        let k = run_len(s.skip(1), CharClass::Segment) as int;
        let first = s.subrange(1, 1 + k);
        let more = spec_segments(s.skip(1 + k)).0;
        lemma_segments_read(s.skip(1 + k));
        assert(first =~= s.skip(1).take(k));
        let all = seq![first] + more;
        assert forall|i: int| 0 <= i < all.len() implies all_in(
            #[trigger] all[i],
            CharClass::Segment,
        ) by {
            if i > 0 {
                assert(all[i] == more[i - 1]);
            }
        }
    }
}

/// The pairs that are read are at least one, and their keys and values are
/// not empty and hold none of `=`, `&` and `#`.
pub proof fn lemma_pairs_read(s: Seq<char>)
    ensures
        spec_pairs(s) matches Ok((pairs, n)) ==> pairs.len() > 0 && is_pairs(pairs),
    decreases s.len(),
{
    if let Ok((pair, n)) = spec_pair(s) {
        let k = run_len(s, CharClass::Pair) as int;
        let v = run_len(s.skip(k + 1), CharClass::Pair) as int;
        lemma_run_len_bounds(s, CharClass::Pair);
        lemma_run_len_bounds(s.skip(k + 1), CharClass::Pair);
        assert(pair.1 =~= s.skip(k + 1).take(v));
        assert(is_pair(pair));
        if has_at(s, n, '&') {
            lemma_pairs_read(s.skip(n + 1));
            if let Ok((more, m)) = spec_pairs(s.skip(n + 1)) {
                let all = seq![pair] + more;
                assert forall|i: int| 0 <= i < all.len() implies is_pair(#[trigger] all[i]) by {
                    if i > 0 {
                        assert(all[i] == more[i - 1]);
                    }
                }
            }
        } else {
            assert(is_pairs(seq![pair]));
        }
    }
}

/// The host that is read is written at the start of the text.
pub proof fn lemma_host_read(s: Seq<char>)
    ensures
        spec_host(s) matches Ok((host, n)) ==> {
            &&& 0 <= n <= s.len()
            &&& is_host(host_written(s))
            &&& host_text(host_written(s)) == s.take(n)
            &&& host_of(host_written(s)) == host
        },
{
    lemma_host_well_formed(s);
    if let Ok((host, n)) = spec_host(s) {
        if host is IP {
            assert(spec_ipv4(s) is Ok && spec_ipv4(s)->Ok_0 == (host->IP_0, n)) by {
                reveal(spec_host);
            }
            lemma_address_read(s);
        } else {
            assert(host->HOST_0 == s.take(n)) by {
                reveal(spec_host);
            }
        }
    }
}

/// Where a URL is read, each of its parts is read behind the one before it.
pub proof fn lemma_parts_of_url(s: Seq<char>)
    requires
        spec_url_prefix(s) is Ok,
    ensures
        ({
            let url = spec_url_prefix(s)->Ok_0.0;
            let a = spec_protocol(s)->Ok_0.1;
            let b = a + spec_host(s.skip(a))->Ok_0.1;
            let c = b + spec_port(s.skip(b))->Ok_0.1;
            let d = c + spec_path(s.skip(c))->Ok_0.1;
            let e = d + spec_query(s.skip(d))->Ok_0.1;
            let f = e + spec_fragment(s.skip(e))->Ok_0.1;
            &&& spec_protocol(s) is Ok && spec_protocol(s)->Ok_0.0 == url.protocol
            &&& spec_host(s.skip(a)) is Ok && spec_host(s.skip(a))->Ok_0.0 == url.host
            &&& spec_port(s.skip(b)) is Ok && spec_port(s.skip(b))->Ok_0.0 == url.port
            &&& spec_path(s.skip(c)) is Ok && spec_path(s.skip(c))->Ok_0.0 == url.path
            &&& spec_query(s.skip(d)) is Ok && spec_query(s.skip(d))->Ok_0.0 == url.query
            &&& spec_fragment(s.skip(e)) is Ok && spec_fragment(s.skip(e))->Ok_0.0
                == url.fragment
            &&& spec_url_prefix(s)->Ok_0.1 == f
        }),
{
}

/// The texts of the parts that are read, put together, are the text.
pub proof fn lemma_parts_make_the_text(
    s: Seq<char>,
    a: int,
    b: int,
    c: int,
    d: int,
    e: int,
)
    requires
        0 <= a <= b <= c <= d <= e <= s.len(),
    ensures
        s == s.take(a) + (s.skip(a).take(b - a) + (s.skip(b).take(c - b) + (s.skip(c).take(
            d - c,
        ) + (s.skip(d).take(e - d) + s.skip(e))))),
{
    let t4 = s.skip(d).take(e - d) + s.skip(e);
    assert(t4 =~= s.skip(d));
    let t3 = s.skip(c).take(d - c) + t4;
    assert(t3 =~= s.skip(c));
    let t2 = s.skip(b).take(c - b) + t3;
    assert(t2 =~= s.skip(b));
    let t1 = s.skip(a).take(b - a) + t2;
    assert(t1 =~= s.skip(a));
    assert(s =~= s.take(a) + t1);
}

} // verus!
