//! The scheme of a URL.

use vstd::prelude::*;
use crate::chars::fold;
use crate::error::{ErrorTag, ParseError};
use crate::grammar::{fails, http_literal, https_literal, reads, spec_protocol};
use crate::matchers::{caseless_literal, tag_no_case};
use crate::text::caseless_eq;
use crate::url::Protocol;

verus! {

/// What the two scheme literals hold.
pub proof fn lemma_scheme_literals()
    ensures
        "http://"@ == http_literal(),
        "https://"@ == https_literal(),
        caseless_literal(http_literal()),
        caseless_literal(https_literal()),
{
    reveal_strlit("http://");
    reveal_strlit("https://");
    assert("http://"@ =~= http_literal());
    assert("https://"@ =~= https_literal());
}

impl Protocol {
    /// The protocol that a scheme literal stands for: HTTP for `http://` in
    /// any case, HTTPS for `https://` in any case.
    pub open spec fn of_literal(literal: Seq<char>) -> Protocol {
        if caseless_eq(literal, http_literal()) {
            Protocol::HTTP
        } else {
            Protocol::HTTPS
        }
    }

    /// The protocol of a scheme literal that the grammar has matched. Any
    /// other text is left out: the parser never hands one over.
    pub fn from(literal: &str) -> (protocol: Protocol)
        requires
            caseless_eq(literal@, http_literal()) || caseless_eq(literal@, https_literal()),
        ensures
            protocol == Protocol::of_literal(literal@),
    {
        proof {
            lemma_scheme_literals();
        }
        match tag_no_case(literal, "http://") {
            Ok(_) => {
                proof {
                    if caseless_eq(literal@, https_literal()) {
                        assert(literal@.take(7)[4] == literal@[4]);
                        assert(fold(literal@.take(7)[4]) == fold(http_literal()[4]));
                        assert(fold(literal@[4]) == fold(https_literal()[4]));
                    }
                    assert(literal@.take(7) =~= literal@);
                }
                Protocol::HTTP
            },
            Err(_) => {
                proof {
                    if caseless_eq(literal@, http_literal()) {
                        assert(literal@.take(7) =~= literal@);
                    }
                }
                Protocol::HTTPS
            },
        }
    }
}

/// Reads the scheme at the start of `input`: `http://` or `https://` in any
/// case.
pub fn parse_protocol<'a>(input: &'a str) -> (r: Result<(&'a str, Protocol), ParseError<'a>>)
    ensures
        match r {
            Ok((rest, protocol)) => reads(spec_protocol(input@), input@, protocol, rest@),
            Err(e) => fails(spec_protocol(input@), e@),
        },
{
    proof {
        reveal(spec_protocol);
        lemma_scheme_literals();
    }
    let (rest, literal) = match tag_no_case(input, "http://") {
        Ok(found) => found,
        Err(_) => match tag_no_case(input, "https://") {
            Ok(found) => found,
            Err(e) => {
                let e = e.append(input, ErrorTag::Alt).add_context(input, "protocol");
                assert(e@ =~= seq![
                    (input@, ErrorTag::Tag),
                    (input@, ErrorTag::Alt),
                    (input@, ErrorTag::Context("protocol")),
                ]);
                return Err(e);
            },
        },
    };
    Ok((rest, Protocol::from(literal)))
}

} // verus!
