//! The port of a URL.

use vstd::prelude::*;
use crate::error::ParseError;
use crate::grammar::{fails, reads, spec_port};
use crate::matchers::{lemma_symbols, symbol};
use crate::number::{lemma_number_bounds, number};

verus! {

/// Reads the port at the start of `input`: nothing where the input does not
/// start with a colon; else the number that the one to five digits behind
/// the colon write, which has to be at most 65535.
pub fn parse_port<'a>(input: &'a str) -> (r: Result<(&'a str, Option<u16>), ParseError<'a>>)
    ensures
        match r {
            Ok((rest, port)) => reads(spec_port(input@), input@, port, rest@),
            Err(e) => fails(spec_port(input@), e@),
        },
{
    proof {
        reveal(spec_port);
        lemma_symbols();
        assert(input@.skip(0) =~= input@);
    }
    match symbol(input, ":", Ghost(':')) {
        Err(_) => Ok((input, None)),
        Ok(digits) => {
            proof {
                lemma_number_bounds(digits@, 5, 65535);
            }
            match number(digits, 5, 65535) {
                Ok((rest, value)) => {
                    proof {
                        let k = input@.skip(1).len() - rest@.len();
                        assert(rest@ =~= input@.skip(1 + k));
                    }
                    Ok((rest, Some(value as u16)))
                },
                Err(e) => Err(e.add_context(input, "port")),
            }
        },
    }
}

} // verus!
