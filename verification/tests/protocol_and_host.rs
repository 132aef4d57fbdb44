use url_parser::error::{ErrorTag, ParseError};
use url_parser::host::{dotted_name, join, parse_host, parse_ipv4, single_label};
use url_parser::protocol::parse_protocol;
use url_parser::url::{Host, Protocol};

#[test]
fn test_protocol() {
    assert_eq!(parse_protocol("https://yay"), Ok(("yay", Protocol::HTTPS)));
    assert_eq!(parse_protocol("http://yay"), Ok(("yay", Protocol::HTTP)));
    assert_eq!(
        parse_protocol("bla://yay"),
        Err(ParseError {
            errors: vec![
                ("bla://yay", ErrorTag::Tag),
                ("bla://yay", ErrorTag::Alt),
                ("bla://yay", ErrorTag::Context("protocol")),
            ]
        })
    );
}

#[test]
fn test_host() {
    assert_eq!(
        parse_host("localhost:3000"),
        Ok((":3000", Host::HOST("localhost".to_string())))
    );
    assert_eq!(
        parse_host("example.com:8080"),
        Ok((":8080", Host::HOST("example.com".to_string())))
    );
    assert_eq!(
        parse_host("subdomain.example.com:8080"),
        Ok((":8080", Host::HOST("subdomain.example.com".to_string())))
    );
    assert_eq!(
        parse_host("$$$.com"),
        Err(ParseError {
            errors: vec![
                ("$$$.com", ErrorTag::AlphaNumeric),
                ("$$$.com", ErrorTag::ManyMN),
                ("$$$.com", ErrorTag::Alt),
                ("$$$.com", ErrorTag::Context("host")),
            ]
        })
    );
    assert_eq!(
        parse_host(".com"),
        Err(ParseError {
            errors: vec![
                (".com", ErrorTag::AlphaNumeric),
                (".com", ErrorTag::ManyMN),
                (".com", ErrorTag::Alt),
                (".com", ErrorTag::Context("host")),
            ]
        })
    );
}

#[test]
fn protocol_examples() {
    assert_eq!(parse_protocol("https://x"), Ok(("x", Protocol::HTTPS)));
    let failure = parse_protocol("ftp://x").unwrap_err();
    assert_eq!(failure.errors.last(), Some(&("ftp://x", ErrorTag::Context("protocol"))));
}

#[test]
fn protocol_ignores_case() {
    assert_eq!(parse_protocol("HTTP://a"), Ok(("a", Protocol::HTTP)));
    assert_eq!(parse_protocol("hTtPs://a"), Ok(("a", Protocol::HTTPS)));
    assert_eq!(parse_protocol("HTTPS://"), Ok(("", Protocol::HTTPS)));
}

#[test]
fn protocol_rejects_what_is_too_short_or_not_ascii() {
    assert!(parse_protocol("").is_err());
    assert!(parse_protocol("http:/").is_err());
    assert!(parse_protocol("http:/x").is_err());
    assert!(parse_protocol("\u{212a}ttp://a").is_err());
    assert!(parse_protocol("h\u{165}tp://a").is_err());
}

#[test]
fn protocol_from_a_matched_literal() {
    assert_eq!(Protocol::from("http://"), Protocol::HTTP);
    assert_eq!(Protocol::from("HTTP://"), Protocol::HTTP);
    assert_eq!(Protocol::from("https://"), Protocol::HTTPS);
    assert_eq!(Protocol::from("HttpS://"), Protocol::HTTPS);
}

#[test]
fn host_examples() {
    assert_eq!(
        parse_host("localhost:3000"),
        Ok((":3000", Host::HOST("localhost".to_string())))
    );
    let failure = parse_host("$$$.com").unwrap_err();
    assert_eq!(failure.errors[0], ("$$$.com", ErrorTag::AlphaNumeric));
    assert_eq!(failure.errors.last(), Some(&("$$$.com", ErrorTag::Context("host"))));
    let failure = parse_host(".com").unwrap_err();
    assert_eq!(failure.errors[0], (".com", ErrorTag::AlphaNumeric));
    assert_eq!(failure.errors.last(), Some(&(".com", ErrorTag::Context("host"))));
}

#[test]
fn host_prefers_the_dotted_form() {
    // The single-label form matches "example" here as well; the dotted form
    // is listed first and is the one that is read.
    assert_eq!(
        single_label("example.com/x").map(|(rest, _)| rest),
        Ok(".com/x")
    );
    assert_eq!(
        parse_host("example.com/x"),
        Ok(("/x", Host::HOST("example.com".to_string())))
    );
}

#[test]
fn host_falls_back_to_a_single_label() {
    // The last label of the dotted form has to be made of letters.
    assert_eq!(parse_host("a.1/x"), Ok((".1/x", Host::HOST("a".to_string()))));
    assert_eq!(parse_host("my-host"), Ok(("", Host::HOST("my-host".to_string()))));
    assert_eq!(parse_host("host."), Ok((".", Host::HOST("host".to_string()))));
}

#[test]
fn host_stops_the_last_label_at_the_first_non_letter() {
    assert_eq!(parse_host("a.b-c"), Ok(("-c", Host::HOST("a.b".to_string()))));
    assert_eq!(parse_host("a.com1"), Ok(("1", Host::HOST("a.com".to_string()))));
    assert_eq!(
        parse_host("1.2.3.4.com"),
        Ok(("", Host::HOST("1.2.3.4.com".to_string())))
    );
}

#[test]
fn host_reads_an_ipv4_address() {
    assert_eq!(parse_host("127.0.0.1:80"), Ok((":80", Host::IP([127, 0, 0, 1]))));
    assert_eq!(parse_host("255.255.255.255"), Ok(("", Host::IP([255, 255, 255, 255]))));
    assert_eq!(parse_host("0.0.0.0/"), Ok(("/", Host::IP([0, 0, 0, 0]))));
    assert_eq!(parse_host("001.02.3.4"), Ok(("", Host::IP([1, 2, 3, 4]))));
}

#[test]
fn host_with_an_octet_out_of_range_is_a_label() {
    assert_eq!(parse_host("256.1.1.1"), Ok((".1.1.1", Host::HOST("256".to_string()))));
    assert_eq!(parse_host("1.2.3"), Ok((".2.3", Host::HOST("1".to_string()))));
}

#[test]
fn ipv4_reports_where_it_stopped() {
    assert_eq!(parse_ipv4("10.20.30.40x"), Ok(("x", [10, 20, 30, 40])));
    assert_eq!(
        parse_ipv4("x"),
        Err(ParseError {
            errors: vec![("x", ErrorTag::Digit), ("x", ErrorTag::Context("ipv4"))]
        })
    );
    assert_eq!(
        parse_ipv4("1.2.3"),
        Err(ParseError {
            errors: vec![("", ErrorTag::Tag), ("1.2.3", ErrorTag::Context("ipv4"))]
        })
    );
    assert_eq!(
        parse_ipv4("1.2.3.x"),
        Err(ParseError {
            errors: vec![("x", ErrorTag::Digit), ("1.2.3.x", ErrorTag::Context("ipv4"))]
        })
    );
    assert_eq!(
        parse_ipv4("1.300.3.4"),
        Err(ParseError {
            errors: vec![
                ("300.3.4", ErrorTag::OutOfRange),
                ("1.300.3.4", ErrorTag::Context("ipv4")),
            ]
        })
    );
    // An octet has at most three digits: the fourth is not a dot.
    assert_eq!(
        parse_ipv4("1234.1.1.1"),
        Err(ParseError {
            errors: vec![("4.1.1.1", ErrorTag::Tag), ("1234.1.1.1", ErrorTag::Context("ipv4"))]
        })
    );
}

#[test]
fn dotted_name_hands_back_its_labels() {
    assert_eq!(
        dotted_name("a.b-c.example.org:1"),
        Some((":1", (vec!["a", "b-c", "example"], "org")))
    );
    assert_eq!(dotted_name("localhost"), None);
    assert_eq!(dotted_name("a.b.9"), None);
    assert_eq!(dotted_name(""), None);
    assert_eq!(dotted_name("a..b"), None);
}

#[test]
fn single_label_hands_back_one_label_and_no_last() {
    assert_eq!(single_label("abc-1.x"), Ok((".x", (vec!["abc-1"], ""))));
    assert_eq!(
        single_label("!"),
        Err(ParseError {
            errors: vec![("!", ErrorTag::AlphaNumeric), ("!", ErrorTag::ManyMN)]
        })
    );
}

#[test]
fn join_puts_the_separator_between() {
    assert_eq!(join(&vec!["a", "b", "c"], "."), "a.b.c");
    assert_eq!(join(&vec!["a"], "."), "a");
    assert_eq!(join(&vec![], "."), "");
    assert_eq!(join(&vec!["", ""], ", "), ", ");
}

#[test]
fn host_names_have_no_empty_label() {
    for input in [
        "a..b", "a.b..c", "-.-", "a.b.", "x.y.z9", "9.9.9.9.9", "..", "a-.b-", "1.2.3.4",
    ] {
        if let Ok((_, Host::HOST(name))) = parse_host(input) {
            assert!(!name.is_empty());
            assert!(name.split('.').all(|label| !label.is_empty()));
            assert!(name
                .chars()
                .all(|c| c.is_ascii_alphanumeric() || c == '-' || c == '.'));
        }
    }
    assert_eq!(parse_host("a..b"), Ok(("..b", Host::HOST("a".to_string()))));
    assert_eq!(parse_host("a.b..c"), Ok((".b..c", Host::HOST("a".to_string()))));
    assert_eq!(parse_host("a-.b-"), Ok(("-", Host::HOST("a-.b".to_string()))));
}
