//! A URL as it is written: the texts of its parts, what makes them texts of
//! the grammar, the text that they make together and the URL that they
//! denote.

use vstd::prelude::*;
use crate::chars::{is_alpha, CharClass};
use crate::grammar::{http_literal, https_literal};
use crate::text::{all_in, caseless_eq, decimal};
use crate::url::{HostView, Protocol, UrlView};

verus! {

/// The text of a host: a name, or the four numbers of an address.
pub enum WrittenHost {
    Name(Seq<char>),
    Address(Seq<Seq<char>>),
}

/// The texts of the parts of a URL. The delimiters are not part of them.
pub struct Written {
    /// The scheme with its `://`, in any case.
    pub scheme: Seq<char>,
    pub host: WrittenHost,
    /// The digits of the port.
    pub port: Option<Seq<char>>,
    /// The segments of the path.
    pub path: Option<Seq<Seq<char>>>,
    /// The keys and values of the query.
    pub query: Option<Seq<(Seq<char>, Seq<char>)>>,
    pub fragment: Option<Seq<char>>,
}

/// One to `max` digits that write a number of at most `limit`.
pub open spec fn is_number(text: Seq<char>, max: int, limit: nat) -> bool {
    &&& 1 <= text.len() <= max
    &&& all_in(text, CharClass::Digit)
    &&& decimal(text) <= limit
}

/// Labels with dots between them: letters, digits, hyphens and dots, no dot
/// at either end and no two dots in a row.
pub open spec fn is_labels(text: Seq<char>) -> bool {
    &&& text.len() > 0
    &&& forall|i: int|
        0 <= i < text.len() ==> CharClass::Label.contains(#[trigger] text[i]) || text[i] == '.'
    &&& text[0] != '.'
    &&& text[text.len() - 1] != '.'
    &&& forall|i: int|
        0 <= i < text.len() - 1 ==> !(#[trigger] text[i] == '.' && text[i + 1] == '.')
}

/// `dot` is the place of the last dot of `text`, and only letters follow it.
pub open spec fn ends_in_letters(text: Seq<char>, dot: int) -> bool {
    &&& 0 <= dot < text.len()
    &&& text[dot] == '.'
    &&& forall|i: int| dot < i < text.len() ==> is_alpha(#[trigger] text[i])
}

/// A host name of the grammar: a single label, or two or more labels with
/// dots between them, the last one made of letters.
pub open spec fn is_name(text: Seq<char>) -> bool {
    &&& is_labels(text)
    &&& all_in(text, CharClass::Label) || exists|dot: int| ends_in_letters(text, dot)
}

/// What holds of every host that is read: a name is made of labels that are
/// not empty, and an address has four octets.
pub open spec fn well_formed(host: HostView) -> bool {
    match host {
        HostView::HOST(name) => is_name(name),
        HostView::IP(octets) => octets.len() == 4,
    }
}

/// A host of the grammar: a name, or four numbers of one to three digits
/// that are at most 255.
pub open spec fn is_host(host: WrittenHost) -> bool {
    match host {
        WrittenHost::Name(text) => is_name(text),
        WrittenHost::Address(numbers) => numbers.len() == 4 && forall|i: int|
            0 <= i < 4 ==> is_number(#[trigger] numbers[i], 3, 255),
    }
}

/// Segments of the grammar: none of them holds `/`, `?` or `#`.
pub open spec fn is_segments(segments: Seq<Seq<char>>) -> bool {
    forall|i: int| 0 <= i < segments.len() ==> all_in(#[trigger] segments[i], CharClass::Segment)
}

/// A pair of the grammar: key and value are not empty and hold none of `=`,
/// `&` and `#`.
pub open spec fn is_pair(pair: (Seq<char>, Seq<char>)) -> bool {
    &&& pair.0.len() > 0
    &&& pair.1.len() > 0
    &&& all_in(pair.0, CharClass::Pair)
    &&& all_in(pair.1, CharClass::Pair)
}

/// Pairs of the grammar.
pub open spec fn is_pairs(pairs: Seq<(Seq<char>, Seq<char>)>) -> bool {
    forall|i: int| 0 <= i < pairs.len() ==> is_pair(#[trigger] pairs[i])
}

/// The parts are texts of the grammar.
pub open spec fn is_written(w: Written) -> bool {
    &&& caseless_eq(w.scheme, http_literal()) || caseless_eq(w.scheme, https_literal())
    &&& is_host(w.host)
    &&& w.port matches Some(digits) ==> is_number(digits, 5, 65535)
    &&& w.path matches Some(segments) ==> segments.len() > 0 && is_segments(segments)
    &&& w.query matches Some(pairs) ==> pairs.len() > 0 && is_pairs(pairs)
}

/// The text of a host.
pub open spec fn host_text(host: WrittenHost) -> Seq<char> {
    match host {
        WrittenHost::Name(text) => text,
        WrittenHost::Address(numbers) => numbers[0] + seq!['.'] + numbers[1] + seq!['.']
            + numbers[2] + seq!['.'] + numbers[3],
    }
}

/// Each segment with a slash before it.
pub open spec fn segments_text(segments: Seq<Seq<char>>) -> Seq<char>
    decreases segments.len(),
{
    if segments.len() == 0 {
        Seq::empty()
    } else {
        seq!['/'] + segments[0] + segments_text(segments.skip(1))
    }
}

/// A key, `=`, and a value.
pub open spec fn pair_text(pair: (Seq<char>, Seq<char>)) -> Seq<char> {
    pair.0 + seq!['='] + pair.1
}

/// The pairs with `&` between them.
pub open spec fn pairs_text(pairs: Seq<(Seq<char>, Seq<char>)>) -> Seq<char>
    decreases pairs.len(),
{
    if pairs.len() == 0 {
        Seq::empty()
    } else if pairs.len() == 1 {
        pair_text(pairs[0])
    } else {
        pair_text(pairs[0]) + seq!['&'] + pairs_text(pairs.skip(1))
    }
}

/// The text of a port: nothing, or a colon and the digits.
pub open spec fn port_text(port: Option<Seq<char>>) -> Seq<char> {
    match port {
        Some(digits) => seq![':'] + digits,
        None => Seq::empty(),
    }
}

/// The text of a path: nothing, or its segments.
pub open spec fn path_text(path: Option<Seq<Seq<char>>>) -> Seq<char> {
    match path {
        Some(segments) => segments_text(segments),
        None => Seq::empty(),
    }
}

/// The text of a query: nothing, or `?` and the pairs.
pub open spec fn query_text(query: Option<Seq<(Seq<char>, Seq<char>)>>) -> Seq<char> {
    match query {
        Some(pairs) => seq!['?'] + pairs_text(pairs),
        None => Seq::empty(),
    }
}

/// The text of a fragment: nothing, or `#` and the fragment.
pub open spec fn fragment_text(fragment: Option<Seq<char>>) -> Seq<char> {
    match fragment {
        Some(text) => seq!['#'] + text,
        None => Seq::empty(),
    }
}

/// The text that the parts make: each optional part that is there behind
/// its delimiter, in the order of the grammar.
pub open spec fn text_of(w: Written) -> Seq<char> {
    w.scheme + (host_text(w.host) + (port_text(w.port) + (path_text(w.path) + (query_text(
        w.query,
    ) + fragment_text(w.fragment)))))
}

/// The host that a text denotes: the name itself, or the octets that the
/// four numbers write.
pub open spec fn host_of(host: WrittenHost) -> HostView {
    match host {
        WrittenHost::Name(text) => HostView::HOST(text),
        WrittenHost::Address(numbers) => HostView::IP(
            seq![
                decimal(numbers[0]) as u8,
                decimal(numbers[1]) as u8,
                decimal(numbers[2]) as u8,
                decimal(numbers[3]) as u8,
            ],
        ),
    }
}

/// The port that the digits write.
pub open spec fn port_of(port: Option<Seq<char>>) -> Option<u16> {
    match port {
        Some(digits) => Some(decimal(digits) as u16),
        None => None,
    }
}

/// The URL that the parts denote: the name, the segments, the pairs and the
/// fragment as they are written, the protocol of the scheme, and the numbers
/// that the digits write.
pub open spec fn url_of(w: Written) -> UrlView {
    UrlView {
        protocol: Protocol::of_literal(w.scheme),
        host: host_of(w.host),
        port: port_of(w.port),
        path: w.path,
        query: w.query,
        fragment: w.fragment,
    }
}

} // verus!
