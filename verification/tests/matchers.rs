use url_parser::chars::{digit_of, CharClass};
use url_parser::error::{ErrorTag, ParseError};
use url_parser::matchers::{
    alpha1, alphanumerichyphen1, digit, tag, tag_no_case, take_while, take_while1,
};
use url_parser::number::number;

fn failure<'a>(at: &'a str, tag: ErrorTag) -> ParseError<'a> {
    ParseError { errors: vec![(at, tag)] }
}

#[test]
fn tag_splits_behind_the_literal() {
    assert_eq!(tag("abc", "ab"), Ok(("c", "ab")));
    assert_eq!(tag("abc", ""), Ok(("abc", "")));
    assert_eq!(tag("\u{e9}t\u{e9}", "\u{e9}"), Ok(("t\u{e9}", "\u{e9}")));
    assert_eq!(tag("abc", "abc"), Ok(("", "abc")));
}

#[test]
fn tag_fails_at_the_input() {
    assert_eq!(tag("abc", "b"), Err(failure("abc", ErrorTag::Tag)));
    assert_eq!(tag("ab", "abc"), Err(failure("ab", ErrorTag::Tag)));
    assert_eq!(tag("Abc", "abc"), Err(failure("Abc", ErrorTag::Tag)));
    assert_eq!(tag("", "a"), Err(failure("", ErrorTag::Tag)));
}

#[test]
fn tag_no_case_hands_back_the_text_of_the_input() {
    assert_eq!(tag_no_case("HeLLo!", "hello"), Ok(("!", "HeLLo")));
    assert_eq!(tag_no_case("hello", "HELLO"), Ok(("", "hello")));
    assert_eq!(tag_no_case("a-b", "A-"), Ok(("b", "a-")));
    assert_eq!(tag_no_case("abc", ""), Ok(("abc", "")));
}

#[test]
fn tag_no_case_fails_at_the_input() {
    assert_eq!(tag_no_case("hallo", "hello"), Err(failure("hallo", ErrorTag::Tag)));
    assert_eq!(tag_no_case("hell", "hello"), Err(failure("hell", ErrorTag::Tag)));
    assert_eq!(tag_no_case("\u{17f}ee", "see"), Err(failure("\u{17f}ee", ErrorTag::Tag)));
    assert_eq!(tag_no_case("@", "`"), Err(failure("@", ErrorTag::Tag)));
    assert_eq!(tag_no_case("[", "{"), Err(failure("[", ErrorTag::Tag)));
    assert_eq!(tag_no_case("\u{212a}m", "km"), Err(failure("\u{212a}m", ErrorTag::Tag)));
    assert_eq!(tag_no_case("\u{e9}", "e"), Err(failure("\u{e9}", ErrorTag::Tag)));
}

#[test]
fn tag_no_case_takes_every_ascii_letter() {
    assert_eq!(
        tag_no_case(
            "The Quick Brown Fox Jumps Over The Lazy Dog\u{e9}",
            "the quick brown fox jumps over the lazy dog"
        ),
        Ok(("\u{e9}", "The Quick Brown Fox Jumps Over The Lazy Dog"))
    );
    assert_eq!(tag_no_case("kK", "Kk"), Ok(("", "kK")));
}

#[test]
fn alpha1_takes_the_letters() {
    assert_eq!(alpha1("abcXYZ1"), Ok(("1", "abcXYZ")));
    assert_eq!(alpha1("a"), Ok(("", "a")));
    assert_eq!(alpha1("z\u{e9}"), Ok(("\u{e9}", "z")));
    assert_eq!(alpha1("1a"), Err(failure("1a", ErrorTag::Alpha)));
    assert_eq!(alpha1(""), Err(failure("", ErrorTag::Alpha)));
    assert_eq!(alpha1("\u{e9}"), Err(failure("\u{e9}", ErrorTag::Alpha)));
}

#[test]
fn alphanumerichyphen1_takes_a_label() {
    assert_eq!(alphanumerichyphen1("a-1.b"), Ok((".b", "a-1")));
    assert_eq!(alphanumerichyphen1("-"), Ok(("", "-")));
    assert_eq!(alphanumerichyphen1("Z9_"), Ok(("_", "Z9")));
    assert_eq!(
        alphanumerichyphen1(".a"),
        Err(failure(".a", ErrorTag::AlphaNumeric))
    );
    assert_eq!(alphanumerichyphen1(""), Err(failure("", ErrorTag::AlphaNumeric)));
    assert_eq!(
        alphanumerichyphen1("\u{3b1}"),
        Err(failure("\u{3b1}", ErrorTag::AlphaNumeric))
    );
}

#[test]
fn take_while_may_take_nothing() {
    assert_eq!(take_while("abc/def", CharClass::Segment), ("/def", "abc"));
    assert_eq!(take_while("/def", CharClass::Segment), ("/def", ""));
    assert_eq!(take_while("", CharClass::Segment), ("", ""));
    assert_eq!(take_while("a b\u{e9}?", CharClass::Segment), ("?", "a b\u{e9}"));
    assert_eq!(take_while("a#b/c", CharClass::Any), ("", "a#b/c"));
    assert_eq!(take_while("12a", CharClass::Digit), ("a", "12"));
}

#[test]
fn take_while1_needs_one_character() {
    assert_eq!(
        take_while1("k=v", CharClass::Pair, ErrorTag::TakeTill1),
        Ok(("=v", "k"))
    );
    assert_eq!(
        take_while1("k\u{e9}y", CharClass::Pair, ErrorTag::TakeTill1),
        Ok(("", "k\u{e9}y"))
    );
    assert_eq!(
        take_while1("=v", CharClass::Pair, ErrorTag::TakeTill1),
        Err(failure("=v", ErrorTag::TakeTill1))
    );
    assert_eq!(
        take_while1("", CharClass::Alpha, ErrorTag::Alpha),
        Err(failure("", ErrorTag::Alpha))
    );
}

#[test]
fn digit_reads_one_digit() {
    assert_eq!(digit("42"), Ok(("2", 4)));
    assert_eq!(digit("0"), Ok(("", 0)));
    assert_eq!(digit("9x"), Ok(("x", 9)));
    assert_eq!(digit("x9"), Err(failure("x9", ErrorTag::Digit)));
    assert_eq!(digit(""), Err(failure("", ErrorTag::Digit)));
    assert_eq!(digit("\u{664}"), Err(failure("\u{664}", ErrorTag::Digit)));
}

#[test]
fn digit_of_gives_the_value() {
    assert_eq!(digit_of('0'), 0);
    assert_eq!(digit_of('7'), 7);
    assert_eq!(digit_of('9'), 9);
}

#[test]
fn classes_hold_their_characters() {
    for c in ['a', 'z', 'A', 'Z'] {
        assert!(CharClass::Alpha.holds(c));
        assert!(CharClass::Label.holds(c));
        assert!(!CharClass::Digit.holds(c));
    }
    for c in ['0', '9'] {
        assert!(CharClass::Digit.holds(c));
        assert!(CharClass::Label.holds(c));
        assert!(!CharClass::Alpha.holds(c));
    }
    for c in ['@', '[', '`', '{', '/', ':', '\u{e9}'] {
        assert!(!CharClass::Alpha.holds(c));
        assert!(!CharClass::Digit.holds(c));
        assert!(!CharClass::Label.holds(c));
    }
    assert!(CharClass::Label.holds('-'));
    assert!(!CharClass::Label.holds('_'));
    for c in ['/', '?', '#'] {
        assert!(!CharClass::Segment.holds(c));
        assert!(CharClass::Segment.excludes(c));
        assert!(CharClass::Any.holds(c));
    }
    for c in ['=', '&', '#'] {
        assert!(!CharClass::Pair.holds(c));
    }
    assert!(CharClass::Segment.holds('='));
    assert!(CharClass::Pair.holds('/'));
    assert!(!CharClass::Any.excludes('\u{0}'));
}

#[test]
fn number_reads_at_most_the_digits_allowed() {
    assert_eq!(number("123", 3, 255), Ok(("", 123)));
    assert_eq!(number("1234", 3, 255), Ok(("4", 123)));
    assert_eq!(number("007x", 3, 255), Ok(("x", 7)));
    assert_eq!(number("255", 3, 255), Ok(("", 255)));
    assert_eq!(number("999999999", 9, 999_999_999), Ok(("", 999_999_999)));
    assert_eq!(number("5", 0, 9), Err(failure("5", ErrorTag::Digit)));
}

#[test]
fn number_fails_without_a_digit_or_over_the_limit() {
    assert_eq!(number("x", 3, 255), Err(failure("x", ErrorTag::Digit)));
    assert_eq!(number("", 3, 255), Err(failure("", ErrorTag::Digit)));
    assert_eq!(number("256", 3, 255), Err(failure("256", ErrorTag::OutOfRange)));
    assert_eq!(number("9999", 3, 255), Err(failure("9999", ErrorTag::OutOfRange)));
}
