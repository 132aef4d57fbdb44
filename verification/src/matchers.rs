//! The primitive matchers: a literal, a literal without regard to case, a run
//! of one class of characters, one character of a class.
//!
//! The scanning and the slicing of the input is nom's. Each call into nom
//! stands in a small function whose contract says, over the views of the
//! strings, what nom's source shows of the call; the matchers that the
//! grammar uses are proved from those contracts.

use vstd::prelude::*;
use nom::InputTakeAtPosition;
use crate::chars::{digit_of, digit_value, CharClass};
use crate::error::{ErrorTag, ParseError};
use crate::text::{all_in, caseless_eq, caseless_prefix, has_at, lemma_run_before, run_len};

verus! {

/// A literal that can be matched without regard to case: it is made of ASCII
/// characters.
pub open spec fn caseless_literal(literal: Seq<char>) -> bool {
    forall|i: int| 0 <= i < literal.len() ==> #[trigger] literal[i] <= '\x7f'
}

/// `nom::bytes::complete::tag` on string slices. nom compares the bytes of
/// the literal with the bytes at the start of the input, and on a match
/// splits the input behind them: the first part is the literal, the second
/// what follows it. It fails exactly when the input does not start with the
/// literal.
#[verifier::external_body]
fn nom_tag<'a>(input: &'a str, literal: &str) -> (r: Option<(&'a str, &'a str)>)
    ensures
        match r {
            Some((rest, matched)) => matched@ == literal@ && input@ == matched@ + rest@,
            None => !literal@.is_prefix_of(input@),
        },
{
    let r: nom::IResult<&'a str, &'a str, ()> = nom::bytes::complete::tag(literal)(input);
    r.ok()
}

/// `nom::bytes::complete::tag_no_case` on the bytes of the two strings. nom
/// compares the bytes of the literal with the bytes at the start of the
/// input, each after the bytes `A` to `Z` have been turned into `a` to `z`,
/// and on a match splits the input behind as many bytes as the literal has.
/// The literal is ASCII, so the bytes that match it are ASCII characters of
/// the input, one byte each: the match is that of the first characters of
/// the input without regard to the case of ASCII letters, and the split,
/// carried over to the string, falls behind those characters. It fails
/// exactly when the input does not start with the literal in that sense.
#[verifier::external_body]
fn nom_tag_no_case<'a>(input: &'a str, literal: &str) -> (r: Option<(&'a str, &'a str)>)
    requires
        caseless_literal(literal@),
    ensures
        match r {
            Some((rest, matched)) => caseless_eq(matched@, literal@) && input@ == matched@
                + rest@,
            None => !caseless_prefix(literal@, input@),
        },
{
    let r: nom::IResult<&[u8], &[u8], ()> = nom::bytes::complete::tag_no_case(
        literal.as_bytes(),
    )(input.as_bytes());
    let (_, matched) = r.ok()?;
    let (matched, rest) = input.split_at(matched.len());
    Some((rest, matched))
}

/// `nom::character::complete::alpha1` on a string slice: the input is split
/// before its first character that is not an ASCII letter, or at its end if
/// there is none. It fails exactly when that leaves an empty first part.
#[verifier::external_body]
fn nom_alpha1<'a>(input: &'a str) -> (r: Option<(&'a str, &'a str)>)
    ensures
        match r {
            Some((rest, run)) => {
                &&& input@ == run@ + rest@
                &&& run@.len() > 0
                &&& all_in(run@, CharClass::Alpha)
                &&& rest@.len() > 0 ==> !CharClass::Alpha.contains(rest@[0])
            },
            None => input@.len() == 0 || !CharClass::Alpha.contains(input@[0]),
        },
{
    let r: nom::IResult<&'a str, &'a str, ()> = nom::character::complete::alpha1(input);
    r.ok()
}

/// `InputTakeAtPosition::split_at_position1_complete` of nom on a string
/// slice, with the test "ends a run of `class`": the input is split before
/// its first character outside the class, or at its end if there is none. It
/// fails exactly when that leaves an empty first part.
#[verifier::external_body]
fn nom_split_at_position1_complete<'a>(input: &'a str, class: CharClass) -> (r: Option<
    (&'a str, &'a str),
>)
    ensures
        match r {
            Some((rest, run)) => {
                &&& input@ == run@ + rest@
                &&& run@.len() > 0
                &&& all_in(run@, class)
                &&& rest@.len() > 0 ==> !class.contains(rest@[0])
            },
            None => input@.len() == 0 || !class.contains(input@[0]),
        },
{
    let r: nom::IResult<&'a str, &'a str, ()> = input.split_at_position1_complete(
        |c: char| class.excludes(c),
        nom::error::ErrorKind::TakeTill1,
    );
    r.ok()
}

/// `InputTakeAtPosition::split_at_position_complete` of nom on a string
/// slice, with the test "ends a run of `class`": the input is split before
/// its first character outside the class, or at its end if there is none.
/// The call never fails.
#[verifier::external_body]
fn nom_split_at_position_complete<'a>(input: &'a str, class: CharClass) -> (r: Option<
    (&'a str, &'a str),
>)
    ensures
        match r {
            Some((rest, run)) => {
                &&& input@ == run@ + rest@
                &&& all_in(run@, class)
                &&& rest@.len() > 0 ==> !class.contains(rest@[0])
            },
            None => false,
        },
{
    let r: nom::IResult<&'a str, &'a str, ()> = input.split_at_position_complete(
        |c: char| class.excludes(c),
    );
    r.ok()
}

/// `nom::character::complete::satisfy` on a string slice, with the test
/// "belongs to `class`": the first character of the input and what follows
/// it. It fails exactly when the input is empty or starts with a character
/// outside the class.
#[verifier::external_body]
fn nom_satisfy<'a>(input: &'a str, class: CharClass) -> (r: Option<(&'a str, char)>)
    ensures
        match r {
            Some((rest, c)) => input@.len() > 0 && c == input@[0] && class.contains(c) && rest@
                == input@.skip(1),
            None => input@.len() == 0 || !class.contains(input@[0]),
        },
{
    let r: nom::IResult<&'a str, char, ()> = nom::character::complete::satisfy(
        |c: char| class.holds(c),
    )(input);
    r.ok()
}

/// Matches `literal` at the start of `input`.
pub fn tag<'a>(input: &'a str, literal: &str) -> (r: Result<(&'a str, &'a str), ParseError<'a>>)
    ensures
        match r {
            Ok((rest, matched)) => matched@ == literal@ && input@ == literal@ + rest@,
            Err(e) => !literal@.is_prefix_of(input@) && e@ == seq![(input@, ErrorTag::Tag)],
        },
{
    match nom_tag(input, literal) {
        Some(found) => Ok(found),
        None => Err(ParseError::from_error_kind(input, ErrorTag::Tag)),
    }
}

/// Matches `literal` at the start of `input` without regard to the case of
/// ASCII letters. The first part of the result is the text as the input has
/// it.
pub fn tag_no_case<'a>(input: &'a str, literal: &str) -> (r: Result<
    (&'a str, &'a str),
    ParseError<'a>,
>)
    requires
        caseless_literal(literal@),
    ensures
        match r {
            Ok((rest, matched)) => {
                &&& caseless_prefix(literal@, input@)
                &&& matched@ == input@.take(literal@.len() as int)
                &&& rest@ == input@.skip(literal@.len() as int)
            },
            Err(e) => !caseless_prefix(literal@, input@) && e@ == seq![
                (input@, ErrorTag::Tag),
            ],
        },
{
    match nom_tag_no_case(input, literal) {
        Some((rest, matched)) => {
            proof {
                let n = literal@.len() as int;
                assert(input@.take(n) =~= matched@);
                assert(input@.skip(n) =~= rest@);
            }
            Ok((rest, matched))
        },
        None => Err(ParseError::from_error_kind(input, ErrorTag::Tag)),
    }
}

/// What a matcher of runs hands back on `input`: the run of `class` at its
/// start and what follows the run.
pub open spec fn splits_run(
    input: Seq<char>,
    class: CharClass,
    rest: Seq<char>,
    run: Seq<char>,
) -> bool {
    let n = run_len(input, class) as int;
    run == input.take(n) && rest == input.skip(n)
}

proof fn lemma_splits_run(input: Seq<char>, class: CharClass, rest: Seq<char>, run: Seq<char>)
    requires
        input == run + rest,
        all_in(run, class),
        rest.len() > 0 ==> !class.contains(rest[0]),
    ensures
        splits_run(input, class, rest, run),
        run_len(input, class) == run.len(),
{
    lemma_run_before(run, rest, class);
}

/// The run of `class` at the start of `input`, which may be empty.
pub fn take_while<'a>(input: &'a str, class: CharClass) -> (r: (&'a str, &'a str))
    ensures
        splits_run(input@, class, r.0@, r.1@),
{
    match nom_split_at_position_complete(input, class) {
        Some((rest, run)) => {
            proof {
                lemma_splits_run(input@, class, rest@, run@);
            }
            (rest, run)
        },
        None => unreached(),
    }
}

/// The run of `class` at the start of `input`, which has to hold at least
/// one character; `tag` is that of the failure.
pub fn take_while1<'a>(input: &'a str, class: CharClass, tag: ErrorTag) -> (r: Result<
    (&'a str, &'a str),
    ParseError<'a>,
>)
    ensures
        match r {
            Ok((rest, run)) => run@.len() > 0 && splits_run(input@, class, rest@, run@),
            Err(e) => run_len(input@, class) == 0 && e@ == seq![(input@, tag)],
        },
{
    match nom_split_at_position1_complete(input, class) {
        Some((rest, run)) => {
            proof {
                lemma_splits_run(input@, class, rest@, run@);
            }
            Ok((rest, run))
        },
        None => Err(ParseError::from_error_kind(input, tag)),
    }
}

/// A run of ASCII letters, digits and hyphens, at least one.
pub fn alphanumerichyphen1<'a>(input: &'a str) -> (r: Result<(&'a str, &'a str), ParseError<'a>>)
    ensures
        match r {
            Ok((rest, run)) => run@.len() > 0 && splits_run(
                input@,
                CharClass::Label,
                rest@,
                run@,
            ),
            Err(e) => run_len(input@, CharClass::Label) == 0 && e@ == seq![
                (input@, ErrorTag::AlphaNumeric),
            ],
        },
{
    take_while1(input, CharClass::Label, ErrorTag::AlphaNumeric)
}

/// A run of ASCII letters, at least one.
pub fn alpha1<'a>(input: &'a str) -> (r: Result<(&'a str, &'a str), ParseError<'a>>)
    ensures
        match r {
            Ok((rest, run)) => run@.len() > 0 && splits_run(
                input@,
                CharClass::Alpha,
                rest@,
                run@,
            ),
            Err(e) => run_len(input@, CharClass::Alpha) == 0 && e@ == seq![
                (input@, ErrorTag::Alpha),
            ],
        },
{
    match nom_alpha1(input) {
        Some((rest, run)) => {
            proof {
                lemma_splits_run(input@, CharClass::Alpha, rest@, run@);
            }
            Ok((rest, run))
        },
        None => Err(ParseError::from_error_kind(input, ErrorTag::Alpha)),
    }
}

/// One decimal digit: what follows it, and its value.
pub fn digit<'a>(input: &'a str) -> (r: Result<(&'a str, u8), ParseError<'a>>)
    ensures
        match r {
            Ok((rest, d)) => {
                &&& input@.len() > 0
                &&& CharClass::Digit.contains(input@[0])
                &&& d == digit_value(input@[0])
                &&& rest@ == input@.skip(1)
            },
            Err(e) => run_len(input@, CharClass::Digit) == 0 && e@ == seq![
                (input@, ErrorTag::Digit),
            ],
        },
{
    match nom_satisfy(input, CharClass::Digit) {
        Some((rest, c)) => Ok((rest, digit_of(c))),
        None => Err(ParseError::from_error_kind(input, ErrorTag::Digit)),
    }
}

/// What the one-character literals of the grammar hold.
pub proof fn lemma_symbols()
    ensures
        "."@ == seq!['.'],
        ":"@ == seq![':'],
        "/"@ == seq!['/'],
        "?"@ == seq!['?'],
        "="@ == seq!['='],
        "&"@ == seq!['&'],
        "#"@ == seq!['#'],
{
    reveal_strlit(".");
    reveal_strlit(":");
    reveal_strlit("/");
    reveal_strlit("?");
    reveal_strlit("=");
    reveal_strlit("&");
    reveal_strlit("#");
    assert("."@ =~= seq!['.']);
    assert(":"@ =~= seq![':']);
    assert("/"@ =~= seq!['/']);
    assert("?"@ =~= seq!['?']);
    assert("="@ =~= seq!['=']);
    assert("&"@ =~= seq!['&']);
    assert("#"@ =~= seq!['#']);
}

/// The one-character literal `literal` at the start of `input`: what follows
/// it.
pub(crate) fn symbol<'a>(input: &'a str, literal: &str, Ghost(c): Ghost<char>) -> (r: Result<
    &'a str,
    ParseError<'a>,
>)
    requires
        literal@ == seq![c],
    ensures
        match r {
            Ok(rest) => has_at(input@, 0, c) && rest@ == input@.skip(1),
            Err(e) => !has_at(input@, 0, c) && e@ == seq![(input@, ErrorTag::Tag)],
        },
{
    match tag(input, literal) {
        Ok((rest, _)) => {
            assert(input@[0] == literal@[0]);
            assert(rest@ =~= input@.skip(1));
            Ok(rest)
        },
        Err(e) => {
            assert(has_at(input@, 0, c) ==> literal@ =~= input@.subrange(0, 1));
            Err(e)
        },
    }
}

} // verus!
