//! The trace that a failed parse hands back.

use vstd::prelude::*;

verus! {

/// What was expected at the place where the input stopped matching, or the
/// name of the construct that was being read there.
#[derive(Clone, Copy, Debug, PartialEq, Eq)]
pub enum ErrorTag {
    /// A literal.
    Tag,
    /// One of several alternatives, none of which matched.
    Alt,
    /// A run of ASCII letters.
    Alpha,
    /// A run of ASCII letters, digits and hyphens.
    AlphaNumeric,
    /// A decimal digit.
    Digit,
    /// A repetition with a lower and an upper bound.
    ManyMN,
    /// A run that has to hold at least one character.
    TakeTill1,
    /// A number that is too large for its field.
    OutOfRange,
    /// The end of the input.
    Eof,
    /// The construct that an enclosing parser was reading.
    Context(&'static str),
}

/// The mathematical form of a trace: the text that was left at each frame,
/// and the frame's tag, innermost frame first.
pub type Trace = Seq<(Seq<char>, ErrorTag)>;

/// The frames of a failed parse, innermost first. Each frame holds the input
/// that was left where the frame's parser started or stopped.
#[derive(Debug, PartialEq, Eq)]
pub struct ParseError<'a> {
    pub errors: Vec<(&'a str, ErrorTag)>,
}

impl<'a> View for ParseError<'a> {
    type V = Trace;

    open spec fn view(&self) -> Trace {
        self.errors@.map_values(|f: (&'a str, ErrorTag)| (f.0@, f.1))
    }
}

impl<'a> ParseError<'a> {
    /// The trace of a primitive matcher that failed at `input`.
    pub fn from_error_kind(input: &'a str, tag: ErrorTag) -> (e: Self)
        ensures
            e@ == seq![(input@, tag)],
    {
        let mut errors: Vec<(&'a str, ErrorTag)> = Vec::new();
        errors.push((input, tag));
        let e = ParseError { errors };
        assert(e@ =~= seq![(input@, tag)]);
        e
    }

    /// The trace `self` with one more frame around it.
    pub fn append(self, input: &'a str, tag: ErrorTag) -> (e: Self)
        ensures
            e@ == self@.push((input@, tag)),
    {
        let mut errors = self.errors;
        errors.push((input, tag));
        let e = ParseError { errors };
        assert(e@ =~= self@.push((input@, tag)));
        e
    }

    /// The trace `self` inside the construct called `label`.
    pub fn add_context(self, input: &'a str, label: &'static str) -> (e: Self)
        ensures
            e@ == self@.push((input@, ErrorTag::Context(label))),
    {
        self.append(input, ErrorTag::Context(label))
    }
}

} // verus!
