use filehttpd::line::{next_line, strip_terminator};
use filehttpd::request::{
    build_request_bytes, parse_header_line, parse_request_line, ParseError, Request,
};
use filehttpd::{HttpMethod, HttpVersion};

#[test]
fn request_line_get_http10() {
    let (method, target, version) = parse_request_line(b"GET / HTTP/1.0").unwrap();
    assert_eq!(method, HttpMethod::GET);
    assert_eq!(target, b"/".to_vec());
    assert_eq!(version, HttpVersion::OneOh);
}

#[test]
fn request_line_head_http11() {
    let (method, target, version) =
        parse_request_line(b"HEAD /a/b.html?x=1 HTTP/1.1").unwrap();
    assert_eq!(method, HttpMethod::HEAD);
    assert_eq!(target, b"/a/b.html?x=1".to_vec());
    assert_eq!(version, HttpVersion::OneOne);
}

#[test]
fn request_line_every_method_and_version() {
    for (m, mt) in [(HttpMethod::GET, "GET"), (HttpMethod::HEAD, "HEAD")] {
        for (v, vt) in [(HttpVersion::OneOh, "HTTP/1.0"), (HttpVersion::OneOne, "HTTP/1.1")] {
            let line = format!("{} /index.html {}", mt, vt);
            let (method, target, version) = parse_request_line(line.as_bytes()).unwrap();
            assert_eq!(method, m);
            assert_eq!(target, b"/index.html".to_vec());
            assert_eq!(version, v);
        }
    }
}

#[test]
fn request_line_unknown_method() {
    assert_eq!(
        parse_request_line(b"POST / HTTP/1.1").unwrap_err(),
        ParseError::UnsupportedMethod
    );
    assert_eq!(
        parse_request_line(b"GARBAGE / HTTP/9.9").unwrap_err(),
        ParseError::UnsupportedMethod
    );
    assert_eq!(
        parse_request_line(b"get / HTTP/1.1").unwrap_err(),
        ParseError::UnsupportedMethod
    );
}

#[test]
fn request_line_wrong_token_count() {
    for line in [
        &b""[..],
        b"GET",
        b"GET /",
        b"GET / HTTP/1.1 extra",
        b"GET  HTTP/1.1",
        b" / HTTP/1.1",
        b"GET / ",
        b"GET /  HTTP/1.1",
        b"POST /",
    ] {
        assert_eq!(
            parse_request_line(line).unwrap_err(),
            ParseError::MalformedRequestLine
        );
    }
}

#[test]
fn request_line_unparseable_version() {
    for line in [
        &b"GET / HTTP/9.9"[..],
        b"GET / HTTP/1.2",
        b"GET / http/1.1",
        b"GET / HTTP/1.1\r",
        b"GET / 1.1",
    ] {
        assert_eq!(
            parse_request_line(line).unwrap_err(),
            ParseError::MalformedRequestLine
        );
    }
}

#[test]
fn header_line_name_and_trimmed_value() {
    let (name, value) = parse_header_line(b"Host:   example.com \t").unwrap();
    assert_eq!(name, b"Host");
    assert_eq!(value, b"example.com");
}

#[test]
fn header_line_value_keeps_inner_colons_and_blanks() {
    let (name, value) = parse_header_line(b"Host: rustlang.test.host.example.com:1234").unwrap();
    assert_eq!(name, b"Host");
    assert_eq!(value, b"rustlang.test.host.example.com:1234");
    let (name, value) = parse_header_line(b"User-Agent: rustlang test suite").unwrap();
    assert_eq!(name, b"User-Agent");
    assert_eq!(value, b"rustlang test suite");
}

#[test]
fn header_line_empty_value() {
    let (name, value) = parse_header_line(b"X-Empty:").unwrap();
    assert_eq!(name, b"X-Empty");
    assert_eq!(value, b"");
    let (_, value) = parse_header_line(b"X-Blank:  \t ").unwrap();
    assert_eq!(value, b"");
}

#[test]
fn header_line_without_colon() {
    assert_eq!(
        parse_header_line(b"no colon here").unwrap_err(),
        ParseError::MalformedHeader
    );
    assert_eq!(parse_header_line(b"").unwrap_err(), ParseError::MalformedHeader);
}

#[test]
fn next_line_finds_the_end_behind_the_line_feed() {
    let input = b"ab\r\ncd\r\n\r\nrest";
    assert_eq!(next_line(input, 0), Some(4));
    assert_eq!(next_line(input, 4), Some(8));
    assert_eq!(next_line(input, 8), Some(10));
    assert_eq!(next_line(input, 10), None);
    assert_eq!(next_line(input, input.len()), None);
    assert_eq!(next_line(input, input.len() + 1), None);
    assert_eq!(next_line(b"", 0), None);
    assert_eq!(next_line(b"\n", 0), Some(1));
}

#[test]
fn strip_terminator_wants_cr_lf() {
    assert_eq!(strip_terminator(b"abc\r\n"), Some(&b"abc"[..]));
    assert_eq!(strip_terminator(b"\r\n"), Some(&b""[..]));
    assert_eq!(strip_terminator(b"abc\n"), None);
    assert_eq!(strip_terminator(b"abc"), None);
    assert_eq!(strip_terminator(b"\n"), None);
    assert_eq!(strip_terminator(b""), None);
}

#[test]
fn build_reads_a_head_and_stops_behind_the_blank_line() {
    let input = b"GET / HTTP/1.0\r\nHost: example.com\r\n\r\nGET /next HTTP/1.0\r\n\r\n";
    let (request, consumed) = Request::build(input).unwrap().unwrap();
    assert_eq!(request.method, HttpMethod::GET);
    assert_eq!(request.target, b"/".to_vec());
    assert_eq!(request.version, HttpVersion::OneOh);
    assert_eq!(request.headers.get(b"host"), Some(&b"example.com".to_vec()));
    assert_eq!(consumed, 37);
    let (second, consumed) = Request::build(&input[37..]).unwrap().unwrap();
    assert_eq!(second.target, b"/next".to_vec());
    assert_eq!(consumed, 22);
}

#[test]
fn build_result_does_not_depend_on_what_follows_the_head() {
    let head = b"HEAD /x HTTP/1.1\r\nA: 1\r\n\r\n".to_vec();
    let (alone, n) = Request::build(&head).unwrap().unwrap();
    for rest in [&b"garbage without any line end"[..], b"\r\n\r\n", b"GARBAGE / HTTP/9.9\r\n"] {
        let mut input = head.clone();
        input.extend_from_slice(rest);
        let (request, consumed) = Request::build(&input).unwrap().unwrap();
        assert_eq!(consumed, n);
        assert_eq!(consumed, head.len());
        assert_eq!(request.method, alone.method);
        assert_eq!(request.target, alone.target);
        assert_eq!(request.version, alone.version);
        assert_eq!(request.headers.get(b"a"), Some(&b"1".to_vec()));
    }
}

#[test]
fn build_last_header_of_a_name_wins_and_case_is_ignored() {
    let input = b"GET / HTTP/1.1\r\nHost: one\r\nX: y\r\nhOsT: two\r\n\r\n";
    let (request, _) = Request::build(input).unwrap().unwrap();
    assert_eq!(request.headers.get(b"Host"), Some(&b"two".to_vec()));
    assert_eq!(request.headers.get(b"host"), Some(&b"two".to_vec()));
    assert_eq!(request.headers.get(b"HOST"), Some(&b"two".to_vec()));
    assert_eq!(request.headers.get(b"x"), Some(&b"y".to_vec()));
    assert_eq!(request.headers.get(b"missing"), None);
}

#[test]
fn build_incomplete_head() {
    assert!(Request::build(b"").unwrap().is_none());
    assert!(Request::build(b"GET / HTTP/1.1").unwrap().is_none());
    assert!(Request::build(b"GET / HTTP/1.1\r\n").unwrap().is_none());
    assert!(Request::build(b"GET / HTTP/1.1\r\nHost: a\r\n").unwrap().is_none());
    assert!(Request::build(b"GET / HTTP/1.1\r\nHost: a\r\nX").unwrap().is_none());
}

#[test]
fn build_reports_the_first_bad_line_at_once() {
    assert_eq!(
        Request::build(b"GARBAGE / HTTP/9.9\r\n").unwrap_err(),
        ParseError::UnsupportedMethod
    );
    assert_eq!(
        Request::build(b"GET /\r\nHost: a\r\n\r\n").unwrap_err(),
        ParseError::MalformedRequestLine
    );
    assert_eq!(
        Request::build(b"GET / HTTP/1.1\n").unwrap_err(),
        ParseError::MalformedRequestLine
    );
    assert_eq!(
        Request::build(b"\r\n").unwrap_err(),
        ParseError::MalformedRequestLine
    );
    assert_eq!(
        Request::build(b"GET / HTTP/1.1\r\nno colon\r\n").unwrap_err(),
        ParseError::MalformedHeader
    );
    assert_eq!(
        Request::build(b"GET / HTTP/1.1\r\nHost: a\n\r\n").unwrap_err(),
        ParseError::MalformedHeader
    );
}

#[test]
fn http_get_http10_sample_parses_once_it_is_terminated() {
    let mut sample = build_request_bytes(
        "GET / HTTP/1.0",
        vec![
            ("Connection".to_string(), "close".to_string()),
            ("User-Agent".to_string(), "rustlang test suite".to_string()),
            ("Pragma".to_string(), "no-cache".to_string()),
            ("Host".to_string(), "rustlang.test.host.example.com:1234".to_string()),
        ],
    );
    assert!(Request::build(&sample).unwrap().is_none());
    sample.extend_from_slice(b"\r\n\r\n");
    let (request, consumed) = Request::build(&sample).unwrap().unwrap();
    assert_eq!(consumed, sample.len());
    assert_eq!(request.method, HttpMethod::GET);
    assert_eq!(request.target, b"/".to_vec());
    assert_eq!(request.version, HttpVersion::OneOh);
    assert_eq!(request.headers.get(b"Connection"), Some(&b"close".to_vec()));
    assert_eq!(request.headers.get(b"User-Agent"), Some(&b"rustlang test suite".to_vec()));
    assert_eq!(request.headers.get(b"Pragma"), Some(&b"no-cache".to_vec()));
    assert_eq!(
        request.headers.get(b"Host"),
        Some(&b"rustlang.test.host.example.com:1234".to_vec())
    );
}

#[test]
fn request_new_keeps_its_parts() {
    let mut headers = filehttpd::headers::Headers::new();
    headers.insert(b"Connection", b"close");
    let request = Request::new(HttpMethod::GET, b"/".to_vec(), HttpVersion::OneOh, headers);
    assert_eq!(request.method, HttpMethod::GET);
    assert_eq!(request.target, b"/".to_vec());
    assert_eq!(request.version, HttpVersion::OneOh);
    assert_eq!(request.headers.get(b"connection"), Some(&b"close".to_vec()));
    let copy = request.clone();
    assert_eq!(copy.target, request.target);
    assert_eq!(copy.headers.get(b"CONNECTION"), Some(&b"close".to_vec()));
}
