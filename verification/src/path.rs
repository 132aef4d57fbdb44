//! The path of a URL.

use vstd::prelude::*;
use crate::chars::CharClass;
use crate::error::ParseError;
use crate::grammar::{fails, reads, spec_path, spec_segments};
use crate::matchers::{lemma_symbols, symbol, take_while};
use crate::text::{has_at, lemma_run_len_bounds, run_len};
use crate::url::{path_view, strs_view};

verus! {

/// The segments at the start of a text end inside the text.
pub proof fn lemma_segments_bounds(s: Seq<char>)
    ensures
        0 <= spec_segments(s).1 <= s.len(),
        (spec_segments(s).0.len() > 0) == has_at(s, 0, '/'),
        (spec_segments(s).1 > 0) == has_at(s, 0, '/'),
    decreases s.len(),
{
    if has_at(s, 0, '/') {
        lemma_run_len_bounds(s.skip(1), CharClass::Segment);
        let k = run_len(s.skip(1), CharClass::Segment) as int;
        lemma_segments_bounds(s.skip(1 + k));
    }
}

/// Reads the path at the start of `input`: nothing where the input does not
/// start with a slash; else one segment for each slash, which holds the
/// characters up to the next `/`, `?` or `#` and may be empty.
pub fn parse_path<'a>(input: &'a str) -> (r: Result<
    (&'a str, Option<Vec<&'a str>>),
    ParseError<'a>,
>)
    ensures
        match r {
            Ok((rest, path)) => reads(spec_path(input@), input@, path_view(path), rest@),
            Err(e) => fails(spec_path(input@), e@),
        },
        r is Ok,
{
    let mut segments: Vec<&'a str> = Vec::new();
    let mut cur = input;
    let ghost mut pos: int = 0;
    proof {
        reveal(spec_path);
        lemma_symbols();
        lemma_segments_bounds(input@);
        assert(input@.skip(0) =~= input@);
        assert(strs_view(segments@) + spec_segments(input@).0 =~= spec_segments(input@).0);
    }
    loop
        invariant
            0 <= pos <= input@.len(),
            cur@ == input@.skip(pos),
            spec_segments(input@).0 == strs_view(segments@) + spec_segments(cur@).0,
            spec_segments(input@).1 == pos + spec_segments(cur@).1,
            (segments@.len() > 0) == (pos > 0),
            "/"@ == seq!['/'],
        ensures
            !has_at(cur@, 0, '/'),
        decreases cur@.len(),
    {
        let after = match symbol(cur, "/", Ghost('/')) {
            Ok(after) => after,
            Err(_) => {
                break ;
            },
        };
        let (next, segment) = take_while(after, CharClass::Segment);
        proof {
            lemma_run_len_bounds(after@, CharClass::Segment);
            let k = run_len(after@, CharClass::Segment) as int;
            assert(segment@ =~= cur@.subrange(1, 1 + k));
            assert(next@ =~= cur@.skip(1 + k));
            assert(cur@.skip(1 + k) =~= input@.skip(pos + 1 + k));
            assert(strs_view(segments@.push(segment)) =~= strs_view(segments@).push(segment@));
            assert(strs_view(segments@).push(segment@) + spec_segments(next@).0 =~= strs_view(
                segments@,
            ) + (seq![segment@] + spec_segments(next@).0));
            pos = pos + 1 + k;
        }
        segments.push(segment);
        cur = next;
    }
    proof {
        assert(strs_view(segments@) + Seq::<Seq<char>>::empty() =~= strs_view(segments@));
    }
    if segments.len() == 0 {
        Ok((input, None))
    } else {
        Ok((cur, Some(segments)))
    }
}

} // verus!
