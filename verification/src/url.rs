//! The parts of a URL, and their mathematical views.

use vstd::prelude::*;

verus! {

/// The scheme of a URL.
#[derive(Clone, Copy, Debug, PartialEq, Eq)]
pub enum Protocol {
    HTTP,
    HTTPS,
}

/// The host of a URL: a name made of labels joined by dots, or the four
/// octets of an IPv4 address.
#[derive(Debug, PartialEq, Eq)]
pub enum Host {
    HOST(String),
    IP([u8; 4]),
}

/// The view of a [`Host`]: the characters of the name, or the four octets.
pub enum HostView {
    HOST(Seq<char>),
    IP(Seq<u8>),
}

impl View for Host {
    type V = HostView;

    open spec fn view(&self) -> HostView {
        match self {
            Host::HOST(name) => HostView::HOST(name@),
            Host::IP(octets) => HostView::IP(octets@),
        }
    }
}

/// A key and a value of the query, as the input spells them.
pub type QueryParam<'a> = (&'a str, &'a str);

/// The pairs of a query, in the order of the input.
pub type QueryParams<'a> = Vec<QueryParam<'a>>;

/// A parsed URL. The segments of the path, the pairs of the query and the
/// fragment are slices of the input; a part whose leading delimiter the
/// input does not have is `None`.
#[derive(Debug, PartialEq, Eq)]
pub struct URL<'a> {
    pub protocol: Protocol,
    pub host: Host,
    pub port: Option<u16>,
    pub path: Option<Vec<&'a str>>,
    pub query: Option<QueryParams<'a>>,
    pub fragment: Option<&'a str>,
}

/// The view of a [`URL`].
pub struct UrlView {
    pub protocol: Protocol,
    pub host: HostView,
    pub port: Option<u16>,
    pub path: Option<Seq<Seq<char>>>,
    pub query: Option<Seq<(Seq<char>, Seq<char>)>>,
    pub fragment: Option<Seq<char>>,
}

/// The characters of each string of `v`.
pub open spec fn strs_view(v: Seq<&str>) -> Seq<Seq<char>> {
    v.map_values(|s: &str| s@)
}

/// The characters of each key and value of `v`.
pub open spec fn pairs_view(v: Seq<(&str, &str)>) -> Seq<(Seq<char>, Seq<char>)> {
    v.map_values(|p: (&str, &str)| (p.0@, p.1@))
}

/// The view of a path.
pub open spec fn path_view(path: Option<Vec<&str>>) -> Option<Seq<Seq<char>>> {
    match path {
        Some(segments) => Some(strs_view(segments@)),
        None => None,
    }
}

/// The view of a query.
pub open spec fn query_view(query: Option<Vec<(&str, &str)>>) -> Option<
    Seq<(Seq<char>, Seq<char>)>,
> {
    match query {
        Some(pairs) => Some(pairs_view(pairs@)),
        None => None,
    }
}

/// The view of a fragment.
pub open spec fn fragment_view(fragment: Option<&str>) -> Option<Seq<char>> {
    match fragment {
        Some(text) => Some(text@),
        None => None,
    }
}

impl<'a> View for URL<'a> {
    type V = UrlView;

    open spec fn view(&self) -> UrlView {
        UrlView {
            protocol: self.protocol,
            host: self.host@,
            port: self.port,
            path: path_view(self.path),
            query: query_view(self.query),
            fragment: fragment_view(self.fragment),
        }
    }
}

} // verus!
