//! The query of a URL.

use vstd::prelude::*;
use crate::chars::CharClass;
use crate::error::{ErrorTag, ParseError, Trace};
use crate::grammar::{fails, reads, spec_pair, spec_pairs, spec_query, Outcome};
use crate::matchers::{lemma_symbols, symbol, take_while1};
use crate::text::{has_at, lemma_run_len_bounds, run_len};
use crate::url::{pairs_view, query_view};

verus! {

/// A pair that was read has a key and a value, and ends inside the text.
pub proof fn lemma_pair_bounds(s: Seq<char>)
    ensures
        spec_pair(s) matches Ok((pair, n)) ==> 3 <= n <= s.len() && pair.0.len() > 0
            && pair.1.len() > 0,
{
    let k = run_len(s, CharClass::Pair) as int;
    lemma_run_len_bounds(s, CharClass::Pair);
    if has_at(s, k, '=') {
        lemma_run_len_bounds(s.skip(k + 1), CharClass::Pair);
    }
}

/// Reads a key, `=`, and a value at the start of `input`. Key and value hold
/// at least one character, and none of `=`, `&` and `#`.
pub fn pair<'a>(input: &'a str) -> (r: Result<(&'a str, (&'a str, &'a str)), ParseError<'a>>)
    ensures
        match r {
            Ok((rest, (key, value))) => reads(spec_pair(input@), input@, (key@, value@), rest@),
            Err(e) => fails(spec_pair(input@), e@),
        },
{
    proof {
        lemma_symbols();
        lemma_pair_bounds(input@);
        lemma_run_len_bounds(input@, CharClass::Pair);
    }
    let ghost k = run_len(input@, CharClass::Pair) as int;
    let (after_key, key) = match take_while1(input, CharClass::Pair, ErrorTag::TakeTill1) {
        Ok(found) => found,
        Err(e) => {
            return Err(e);
        },
    };
    let after_sign = match symbol(after_key, "=", Ghost('=')) {
        Ok(after) => after,
        Err(e) => {
            proof {
                if k < input@.len() {
                    assert(after_key@[0] == input@[k]);
                }
            }
            return Err(e);
        },
    };
    proof {
        assert(after_key@[0] == input@[k]);
        assert(after_sign@ =~= input@.skip(k + 1));
        lemma_run_len_bounds(after_sign@, CharClass::Pair);
    }
    let (rest, value) = match take_while1(after_sign, CharClass::Pair, ErrorTag::TakeTill1) {
        Ok(found) => found,
        Err(e) => {
            return Err(e);
        },
    };
    proof {
        let v = run_len(after_sign@, CharClass::Pair) as int;
        assert(value@ =~= input@.subrange(k + 1, k + 1 + v));
        assert(rest@ =~= input@.skip(k + 1 + v));
    }
    Ok((rest, (key, value)))
}

/// What the pairs `read` in the first `pos` characters make together with
/// what follows them.
pub open spec fn pairs_behind(
    read: Seq<(Seq<char>, Seq<char>)>,
    pos: int,
    following: Outcome<Seq<(Seq<char>, Seq<char>)>>,
) -> Outcome<Seq<(Seq<char>, Seq<char>)>> {
    match following {
        Ok((more, n)) => Ok((read + more, pos + n)),
        Err(trace) => Err(trace),
    }
}

/// Reads one or more pairs with `&` between them at the start of `input`. A
/// pair has to follow each `&`.
pub fn pairs<'a>(input: &'a str) -> (r: Result<(&'a str, Vec<(&'a str, &'a str)>), ParseError<'a>>)
    ensures
        match r {
            Ok((rest, found)) => reads(spec_pairs(input@), input@, pairs_view(found@), rest@),
            Err(e) => fails(spec_pairs(input@), e@),
        },
{
    let mut found: Vec<(&'a str, &'a str)> = Vec::new();
    let mut cur = input;
    let ghost mut pos: int = 0;
    proof {
        lemma_symbols();
        assert(input@.skip(0) =~= input@);
        assert(pairs_view(found@) =~= Seq::empty());
        match spec_pairs(input@) {
            Ok((more, n)) => {
                assert(pairs_view(found@) + more =~= more);
            },
            Err(_) => {},
        }
    }
    loop
        invariant_except_break
            spec_pairs(input@) == pairs_behind(pairs_view(found@), pos, spec_pairs(cur@)),
        invariant
            0 <= pos <= input@.len(),
            cur@ == input@.skip(pos),
            "&"@ == seq!['&'],
        ensures
            spec_pairs(input@) == Ok::<_, Trace>((pairs_view(found@), pos)),
        decreases cur@.len(),
    {
        proof {
            lemma_pair_bounds(cur@);
        }
        let ghost before = pairs_view(found@);
        let (after, (key, value)) = match pair(cur) {
            Ok(read) => read,
            Err(e) => {
                return Err(e);
            },
        };
        let ghost n = spec_pair(cur@)->Ok_0.1;
        found.push((key, value));
        proof {
            assert(pairs_view(found@) =~= before.push((key@, value@)));
            assert(after@ =~= input@.skip(pos + n));
        }
        match symbol(after, "&", Ghost('&')) {
            Ok(next) => {
                proof {
                    assert(after@[0] == cur@[n]);
                    assert(next@ =~= cur@.skip(n + 1));
                    assert(next@ =~= input@.skip(pos + n + 1));
                    match spec_pairs(next@) {
                        Ok((more, m)) => {
                            assert(before + (seq![(key@, value@)] + more) =~= before.push(
                                (key@, value@),
                            ) + more);
                        },
                        Err(_) => {},
                    }
                    pos = pos + n + 1;
                }
                cur = next;
            },
            Err(_) => {
                proof {
                    if n < cur@.len() {
                        assert(after@[0] == cur@[n]);
                    }
                    assert(before + seq![(key@, value@)] =~= before.push((key@, value@)));
                    pos = pos + n;
                }
                cur = after;
                break ;
            },
        }
    }
    Ok((cur, found))
}

/// Reads the query at the start of `input`: nothing where the input does not
/// start with `?`; else the pairs behind the `?`, in their order.
pub fn parse_query<'a>(input: &'a str) -> (r: Result<
    (&'a str, Option<Vec<(&'a str, &'a str)>>),
    ParseError<'a>,
>)
    ensures
        match r {
            Ok((rest, query)) => reads(spec_query(input@), input@, query_view(query), rest@),
            Err(e) => fails(spec_query(input@), e@),
        },
{
    proof {
        reveal(spec_query);
        lemma_symbols();
        assert(input@.skip(0) =~= input@);
    }
    match symbol(input, "?", Ghost('?')) {
        Err(_) => Ok((input, None)),
        Ok(after) => match pairs(after) {
            Ok((rest, found)) => {
                proof {
                    let n = spec_pairs(after@)->Ok_0.1;
                    assert(rest@ =~= input@.skip(1 + n));
                }
                Ok((rest, Some(found)))
            },
            Err(e) => Err(e.add_context(input, "query")),
        },
    }
}

} // verus!
