use filehttpd::request::build_request_bytes;

fn header(name: &str, value: &str) -> (String, String) {
    (name.to_string(), value.to_string())
}

#[test]
fn test_build_request_bytes() {
    let built = build_request_bytes(
        "GET / HTTP/1.0",
        [
            header("Connection", "close"),
            header("User-Agent", "rustlang test suite"),
            header("Pragma", "no-cache"),
            header("Host", "rustlang.test.host.example.com:1234"),
        ]
        .to_vec(),
    );

    let manual = b"GET / HTTP/1.0\r\nConnection: close\r\nUser-Agent: rustlang test suite\r\nPragma: no-cache\r\nHost: rustlang.test.host.example.com:1234".to_vec();

    assert_eq!(String::from_utf8(built), String::from_utf8(manual))
}

#[test]
fn request_bytes_without_headers_end_with_the_line_terminator() {
    let built = build_request_bytes("HEAD /x HTTP/1.1", Vec::new());
    assert_eq!(built, b"HEAD /x HTTP/1.1\r\n".to_vec());
}

#[test]
fn request_bytes_with_one_header_have_no_terminator_behind_it() {
    let built = build_request_bytes("GET / HTTP/1.1", vec![header("Host", "a")]);
    assert_eq!(built, b"GET / HTTP/1.1\r\nHost: a".to_vec());
}

#[test]
fn request_bytes_keep_text_outside_ascii() {
    let built = build_request_bytes("GET /caf\u{e9} HTTP/1.1", vec![header("X", "\u{20ac}")]);
    assert_eq!(built, "GET /caf\u{e9} HTTP/1.1\r\nX: \u{20ac}".as_bytes().to_vec());
}
