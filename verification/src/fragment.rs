//! The fragment of a URL.

use vstd::prelude::*;
use crate::chars::CharClass;
use crate::error::ParseError;
use crate::grammar::{fails, reads, spec_fragment};
use crate::matchers::{lemma_symbols, symbol, take_while};
use crate::text::lemma_run_len_unique;
use crate::url::fragment_view;

verus! {

/// Reads the fragment at the start of `input`: nothing where the input does
/// not start with `#`; else all that follows the `#`, as it stands.
pub fn parse_fragment<'a>(input: &'a str) -> (r: Result<
    (&'a str, Option<&'a str>),
    ParseError<'a>,
>)
    ensures
        match r {
            Ok((rest, fragment)) => reads(
                spec_fragment(input@),
                input@,
                fragment_view(fragment),
                rest@,
            ),
            Err(e) => fails(spec_fragment(input@), e@),
        },
        r is Ok,
{
    proof {
        reveal(spec_fragment);
        lemma_symbols();
        assert(input@.skip(0) =~= input@);
    }
    match symbol(input, "#", Ghost('#')) {
        Err(_) => Ok((input, None)),
        Ok(after) => {
            let (rest, text) = take_while(after, CharClass::Any);
            proof {
                let n = after@.len() as int;
                assert(after@.take(n) =~= after@);
                lemma_run_len_unique(after@, CharClass::Any, n);
                assert(rest@ =~= input@.skip(input@.len() as int));
            }
            Ok((rest, Some(text)))
        },
    }
}

} // verus!
