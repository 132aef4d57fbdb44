//! The parts of a URL in their order.

use vstd::prelude::*;
use crate::error::{ErrorTag, ParseError, Trace};
use crate::fragment::parse_fragment;
use crate::grammar::{
    fails, reads, spec_fragment, spec_host, spec_path, spec_port, spec_protocol, spec_query,
    spec_url, spec_url_prefix,
};
use crate::host::parse_host;
use crate::path::parse_path;
use crate::port::parse_port;
use crate::protocol::parse_protocol;
use crate::query::parse_query;
use crate::url::{UrlView, URL};

verus! {

/// Reads a URL at the start of `input`: the scheme, the host, and then the
/// port, the path, the query and the fragment as far as the input has them.
/// The part that fails first ends the parse, and its trace is handed back as
/// it is. What the URL leaves of the input is handed back with it.
pub fn parse_url_prefix<'a>(input: &'a str) -> (r: Result<(&'a str, URL<'a>), ParseError<'a>>)
    ensures
        match r {
            Ok((rest, url)) => reads(spec_url_prefix(input@), input@, url@, rest@),
            Err(e) => fails(spec_url_prefix(input@), e@),
        },
{
    let ghost s = input@;
    let (rest, protocol) = match parse_protocol(input) {
        Ok(read) => read,
        Err(e) => {
            return Err(e);
        },
    };
    let ghost a = spec_protocol(s)->Ok_0.1;
    let (rest, host) = match parse_host(rest) {
        Ok(read) => read,
        Err(e) => {
            return Err(e);
        },
    };
    let ghost b = a + spec_host(s.skip(a))->Ok_0.1;
    proof {
        assert(rest@ =~= s.skip(b));
    }
    let (rest, port) = match parse_port(rest) {
        Ok(read) => read,
        Err(e) => {
            return Err(e);
        },
    };
    let ghost c = b + spec_port(s.skip(b))->Ok_0.1;
    proof {
        assert(rest@ =~= s.skip(c));
    }
    let (rest, path) = match parse_path(rest) {
        Ok(read) => read,
        Err(e) => {
            return Err(e);
        },
    };
    let ghost d = c + spec_path(s.skip(c))->Ok_0.1;
    proof {
        assert(rest@ =~= s.skip(d));
    }
    let (rest, query) = match parse_query(rest) {
        Ok(read) => read,
        Err(e) => {
            return Err(e);
        },
    };
    let ghost e = d + spec_query(s.skip(d))->Ok_0.1;
    proof {
        assert(rest@ =~= s.skip(e));
    }
    let (rest, fragment) = match parse_fragment(rest) {
        Ok(read) => read,
        Err(e) => {
            return Err(e);
        },
    };
    proof {
        let f = e + spec_fragment(s.skip(e))->Ok_0.1;
        assert(rest@ =~= s.skip(f));
    }
    Ok((rest, URL { protocol, host, port, path, query, fragment }))
}

/// Parses `input` as a URL. All of the input has to belong to the URL: what
/// is left behind its last part is a failure at that place.
pub fn parse_url<'a>(input: &'a str) -> (r: Result<URL<'a>, ParseError<'a>>)
    ensures
        match r {
            Ok(url) => spec_url(input@) == Ok::<_, Trace>(url@),
            Err(e) => spec_url(input@) == Err::<UrlView, _>(e@),
        },
{
    match parse_url_prefix(input) {
        Ok((rest, url)) => {
            if rest.is_empty() {
                Ok(url)
            } else {
                Err(ParseError::from_error_kind(rest, ErrorTag::Eof))
            }
        },
        Err(e) => Err(e),
    }
}

} // verus!
