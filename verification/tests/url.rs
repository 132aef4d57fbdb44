use url_parser::query::{pair, pairs};
use url_parser::{
    parse_fragment, parse_host, parse_path, parse_port, parse_protocol, parse_query, parse_url,
    parse_url_prefix, ErrorTag, Host, ParseError, Protocol, URL,
};

#[test]
fn port_at_the_boundary() {
    assert_eq!(parse_port(":65535"), Ok(("", Some(65535))));
    assert_eq!(
        parse_port(":65536"),
        Err(ParseError {
            errors: vec![("65536", ErrorTag::OutOfRange), (":65536", ErrorTag::Context("port"))]
        })
    );
    assert_eq!(
        parse_port(":999999"),
        Err(ParseError {
            errors: vec![
                ("999999", ErrorTag::OutOfRange),
                (":999999", ErrorTag::Context("port")),
            ]
        })
    );
}

#[test]
fn port_is_absent_without_a_colon() {
    assert_eq!(parse_port("/path"), Ok(("/path", None)));
    assert_eq!(parse_port(""), Ok(("", None)));
    assert_eq!(parse_port("8080"), Ok(("8080", None)));
}

#[test]
fn port_reads_up_to_five_digits() {
    assert_eq!(parse_port(":3000"), Ok(("", Some(3000))));
    assert_eq!(parse_port(":8080/x"), Ok(("/x", Some(8080))));
    assert_eq!(parse_port(":0"), Ok(("", Some(0))));
    assert_eq!(parse_port(":00080"), Ok(("", Some(80))));
    assert_eq!(parse_port(":000801"), Ok(("1", Some(80))));
}

#[test]
fn port_needs_a_digit_behind_the_colon() {
    assert_eq!(
        parse_port(":/x"),
        Err(ParseError {
            errors: vec![("/x", ErrorTag::Digit), (":/x", ErrorTag::Context("port"))]
        })
    );
    assert_eq!(
        parse_port(":"),
        Err(ParseError { errors: vec![("", ErrorTag::Digit), (":", ErrorTag::Context("port"))] })
    );
}

#[test]
fn path_is_absent_without_a_slash() {
    assert_eq!(parse_path("?a=b"), Ok(("?a=b", None)));
    assert_eq!(parse_path(""), Ok(("", None)));
    assert_eq!(parse_path("a/b"), Ok(("a/b", None)));
}

#[test]
fn path_has_one_segment_for_each_slash() {
    assert_eq!(parse_path("/a/b/c"), Ok(("", Some(vec!["a", "b", "c"]))));
    assert_eq!(parse_path("/"), Ok(("", Some(vec![""]))));
    assert_eq!(parse_path("//a/"), Ok(("", Some(vec!["", "a", ""]))));
    assert_eq!(parse_path("/a b/c:d?x"), Ok(("?x", Some(vec!["a b", "c:d"]))));
    assert_eq!(parse_path("/a#f"), Ok(("#f", Some(vec!["a"]))));
}

#[test]
fn pair_reads_a_key_and_a_value() {
    assert_eq!(pair("k=v"), Ok(("", ("k", "v"))));
    assert_eq!(pair("key=some value&x"), Ok(("&x", ("key", "some value"))));
    assert_eq!(pair("a=b=c"), Ok(("=c", ("a", "b"))));
}

#[test]
fn pair_fails_where_a_part_is_missing() {
    assert_eq!(pair("=v"), Err(ParseError { errors: vec![("=v", ErrorTag::TakeTill1)] }));
    assert_eq!(pair(""), Err(ParseError { errors: vec![("", ErrorTag::TakeTill1)] }));
    assert_eq!(pair("key"), Err(ParseError { errors: vec![("", ErrorTag::Tag)] }));
    assert_eq!(pair("key&x=y"), Err(ParseError { errors: vec![("&x=y", ErrorTag::Tag)] }));
    assert_eq!(pair("key="), Err(ParseError { errors: vec![("", ErrorTag::TakeTill1)] }));
    assert_eq!(pair("key=#f"), Err(ParseError { errors: vec![("#f", ErrorTag::TakeTill1)] }));
}

#[test]
fn pairs_keep_their_order_and_their_duplicates() {
    assert_eq!(
        pairs("b=2&a=1&b=3#f"),
        Ok(("#f", vec![("b", "2"), ("a", "1"), ("b", "3")]))
    );
    assert_eq!(pairs("a=1"), Ok(("", vec![("a", "1")])));
    assert_eq!(pairs("a=1&"), Err(ParseError { errors: vec![("", ErrorTag::TakeTill1)] }));
    assert_eq!(pairs("a=1&b"), Err(ParseError { errors: vec![("", ErrorTag::Tag)] }));
}

#[test]
fn query_is_absent_without_a_question_mark() {
    assert_eq!(parse_query("#f"), Ok(("#f", None)));
    assert_eq!(parse_query(""), Ok(("", None)));
    assert_eq!(parse_query("a=b"), Ok(("a=b", None)));
}

#[test]
fn query_reads_its_pairs() {
    assert_eq!(
        parse_query("?a=1&b=2#top"),
        Ok(("#top", Some(vec![("a", "1"), ("b", "2")])))
    );
    assert_eq!(parse_query("?q=a/b?c"), Ok(("", Some(vec![("q", "a/b?c")]))));
}

#[test]
fn query_without_a_value_is_a_failure() {
    assert_eq!(
        parse_query("?key"),
        Err(ParseError {
            errors: vec![("", ErrorTag::Tag), ("?key", ErrorTag::Context("query"))]
        })
    );
    assert_eq!(
        parse_query("?key=&b=1"),
        Err(ParseError {
            errors: vec![("&b=1", ErrorTag::TakeTill1), ("?key=&b=1", ErrorTag::Context("query"))]
        })
    );
    assert_eq!(
        parse_query("?"),
        Err(ParseError {
            errors: vec![("", ErrorTag::TakeTill1), ("?", ErrorTag::Context("query"))]
        })
    );
}

#[test]
fn fragment_is_all_that_follows() {
    assert_eq!(parse_fragment("#top"), Ok(("", Some("top"))));
    assert_eq!(parse_fragment("#"), Ok(("", Some(""))));
    assert_eq!(parse_fragment("#a#b?c/d e"), Ok(("", Some("a#b?c/d e"))));
    assert_eq!(parse_fragment("top"), Ok(("top", None)));
    assert_eq!(parse_fragment(""), Ok(("", None)));
}

#[test]
fn url_with_every_part() {
    assert_eq!(
        parse_url("https://www.example.com:8443/a/b.html?x=1&y=two#sec-2"),
        Ok(URL {
            protocol: Protocol::HTTPS,
            host: Host::HOST("www.example.com".to_string()),
            port: Some(8443),
            path: Some(vec!["a", "b.html"]),
            query: Some(vec![("x", "1"), ("y", "two")]),
            fragment: Some("sec-2"),
        })
    );
}

#[test]
fn url_without_the_optional_parts() {
    assert_eq!(
        parse_url("http://localhost"),
        Ok(URL {
            protocol: Protocol::HTTP,
            host: Host::HOST("localhost".to_string()),
            port: None,
            path: None,
            query: None,
            fragment: None,
        })
    );
}

#[test]
fn url_with_an_address_and_an_empty_path() {
    assert_eq!(
        parse_url("HTTP://192.168.0.1:80/"),
        Ok(URL {
            protocol: Protocol::HTTP,
            host: Host::IP([192, 168, 0, 1]),
            port: Some(80),
            path: Some(vec![""]),
            query: None,
            fragment: None,
        })
    );
}

#[test]
fn url_parts_may_be_left_out_one_by_one() {
    let url = parse_url("http://a.b?k=v").unwrap();
    assert_eq!((url.port, url.path.clone(), url.fragment), (None, None, None));
    assert_eq!(url.query, Some(vec![("k", "v")]));
    let url = parse_url("http://a.b#f").unwrap();
    assert_eq!((url.port, url.path.clone(), url.query.clone()), (None, None, None));
    assert_eq!(url.fragment, Some("f"));
    let url = parse_url("http://a.b:1#").unwrap();
    assert_eq!(url.port, Some(1));
    assert_eq!(url.fragment, Some(""));
}

#[test]
fn url_hands_back_the_trace_of_the_part_that_failed() {
    assert_eq!(
        parse_url("ftp://example.com"),
        Err(ParseError {
            errors: vec![
                ("ftp://example.com", ErrorTag::Tag),
                ("ftp://example.com", ErrorTag::Alt),
                ("ftp://example.com", ErrorTag::Context("protocol")),
            ]
        })
    );
    assert_eq!(
        parse_url("http://$$$.com"),
        Err(ParseError {
            errors: vec![
                ("$$$.com", ErrorTag::AlphaNumeric),
                ("$$$.com", ErrorTag::ManyMN),
                ("$$$.com", ErrorTag::Alt),
                ("$$$.com", ErrorTag::Context("host")),
            ]
        })
    );
    assert_eq!(
        parse_url("http://a.com:99999/x"),
        Err(ParseError {
            errors: vec![
                ("99999/x", ErrorTag::OutOfRange),
                (":99999/x", ErrorTag::Context("port")),
            ]
        })
    );
    assert_eq!(
        parse_url("http://a.com/p?k#f"),
        Err(ParseError {
            errors: vec![("#f", ErrorTag::Tag), ("?k#f", ErrorTag::Context("query"))]
        })
    );
}

#[test]
fn url_has_to_take_all_of_the_input() {
    assert_eq!(
        parse_url("http://a.com|x"),
        Err(ParseError { errors: vec![("|x", ErrorTag::Eof)] })
    );
    assert_eq!(
        parse_url("http://1.2.3.4.5"),
        Err(ParseError { errors: vec![(".5", ErrorTag::Eof)] })
    );
    assert_eq!(
        parse_url("http://a.com:123456"),
        Err(ParseError { errors: vec![("6", ErrorTag::Eof)] })
    );
    let (rest, url) = parse_url_prefix("http://a.com|x").unwrap();
    assert_eq!(rest, "|x");
    assert_eq!(url.host, Host::HOST("a.com".to_string()));
}

#[test]
fn parts_parsed_twice_are_the_same() {
    for input in [
        "https://x", "ftp://x", "a.b.c", "1.2.3.4", "$", ":80", ":x", "/a/b", "?a=b", "?a", "#f", "",
    ] {
        assert_eq!(parse_protocol(input), parse_protocol(input));
        assert_eq!(parse_host(input), parse_host(input));
        assert_eq!(parse_port(input), parse_port(input));
        assert_eq!(parse_path(input), parse_path(input));
        assert_eq!(parse_query(input), parse_query(input));
        assert_eq!(parse_fragment(input), parse_fragment(input));
    }
}

#[test]
fn frames_are_at_places_of_the_input() {
    for input in [
        "ftp://a",
        "http://",
        "http://!",
        "http://a.com:x",
        "http://a.com:70000/",
        "http://a.com/p?=v",
        "http://a.com/p?k=v&k",
        "http://a.com/p?k=v&k=",
        "http://a.com/p q?k=v x#f\u{e9}|",
        "http://a.com\u{e9}",
    ] {
        let failure = parse_url(input);
        if let Err(failure) = failure {
            assert!(!failure.errors.is_empty());
            for (rest, _) in &failure.errors {
                assert!(input.ends_with(rest));
            }
        }
    }
}

#[test]
fn url_parsed_twice_is_the_same() {
    let input = "https://sub.example.org:8080/p/q?a=b#frag";
    assert_eq!(parse_url(input), parse_url(input));
    let input = "https://sub.example.org:80800/p";
    assert_eq!(parse_url(input), parse_url(input));
}

fn render(url: &URL) -> String {
    let mut text = String::new();
    text.push_str(match url.protocol {
        Protocol::HTTP => "http://",
        Protocol::HTTPS => "https://",
    });
    match &url.host {
        Host::HOST(name) => text.push_str(name),
        Host::IP(octets) => text.push_str(&format!(
            "{}.{}.{}.{}",
            octets[0], octets[1], octets[2], octets[3]
        )),
    }
    if let Some(port) = url.port {
        text.push_str(&format!(":{}", port));
    }
    if let Some(path) = &url.path {
        for segment in path {
            text.push('/');
            text.push_str(segment);
        }
    }
    if let Some(query) = &url.query {
        let mut sign = '?';
        for (key, value) in query {
            text.push(sign);
            text.push_str(&format!("{}={}", key, value));
            sign = '&';
        }
    }
    if let Some(fragment) = url.fragment {
        text.push('#');
        text.push_str(fragment);
    }
    text
}

#[test]
fn url_put_together_again_is_the_input() {
    for input in [
        "http://localhost",
        "https://example.com:443",
        "http://10.0.0.1/index.html",
        "https://a.b.c.de/x//y/?k=v&k=w#",
        "http://my-host:8080?q=1#a/b?c",
        "https://example.com/#/route",
    ] {
        let url = parse_url(input).unwrap();
        assert_eq!(render(&url), input);
        assert_eq!(parse_url(&render(&url)), Ok(parse_url(input).unwrap()));
    }
}
