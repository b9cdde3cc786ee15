use proxy_server::error::ProxyError;
use proxy_server::request::{connect_target, handshake, ok_response, Reply, REQUEST_LIMIT, SPACE};

#[test]
fn target_is_the_second_token() {
    let request = b"CONNECT example.com:443 HTTP/1.1\r\n\r\n";
    assert_eq!(connect_target(request), Ok("example.com:443"));
}

#[test]
fn empty_request_is_rejected() {
    assert_eq!(connect_target(b""), Err(ProxyError::EmptyRequest));
}

#[test]
fn request_without_space_is_invalid() {
    assert_eq!(connect_target(b"CONNECT"), Err(ProxyError::InvalidRequest));
    assert_eq!(connect_target(b"\r\n"), Err(ProxyError::InvalidRequest));
}

#[test]
fn request_that_is_not_utf8_is_a_parse_error() {
    assert_eq!(connect_target(b"\xff\xfe host:1 x"), Err(ProxyError::ParseError));
    assert_eq!(connect_target(b"CONNECT host:1 \xc3"), Err(ProxyError::ParseError));
    assert_eq!(connect_target(b"CONNECT host:1 \xe6\x97"), Err(ProxyError::ParseError));
    assert_eq!(connect_target(b"CONNECT \xed\xa0\x80 x"), Err(ProxyError::ParseError));
}

#[test]
fn bad_utf8_is_reported_before_a_missing_target() {
    assert_eq!(connect_target(b"\xff"), Err(ProxyError::ParseError));
    assert_eq!(connect_target(b"CONNECT\x80"), Err(ProxyError::ParseError));
}

#[test]
fn only_the_space_separates_tokens() {
    assert_eq!(connect_target(b"CONNECT\thost:1"), Err(ProxyError::InvalidRequest));
    assert_eq!(connect_target(b"CONNECT\r\nhost:1"), Err(ProxyError::InvalidRequest));
    assert_eq!(connect_target(b"CONNECT\thost:1 x y"), Ok("x"));
    assert_eq!(SPACE, b' ');
}

#[test]
fn two_spaces_hold_an_empty_target() {
    assert_eq!(connect_target(b"CONNECT  host:1"), Ok(""));
    assert_eq!(connect_target(b"CONNECT "), Ok(""));
    assert_eq!(connect_target(b" "), Ok(""));
    assert_eq!(connect_target(b"  "), Ok(""));
}

#[test]
fn leading_space_makes_the_first_token_empty() {
    assert_eq!(connect_target(b" a b"), Ok("a"));
}

#[test]
fn target_runs_to_the_end_without_a_third_token() {
    assert_eq!(connect_target(b"CONNECT host:1"), Ok("host:1"));
    assert_eq!(connect_target(b"CONNECT host:1\r\n\r\n"), Ok("host:1\r\n\r\n"));
}

#[test]
fn method_is_not_validated() {
    assert_eq!(connect_target(b"GET host:80 HTTP/1.1"), Ok("host:80"));
    assert_eq!(connect_target(b"!! 10.0.0.1:22"), Ok("10.0.0.1:22"));
}

#[test]
fn target_may_hold_characters_of_several_bytes() {
    let request = "CONNECT b\u{fc}cher.example:443 HTTP/1.1".as_bytes();
    assert_eq!(connect_target(request), Ok("b\u{fc}cher.example:443"));
    assert_eq!(connect_target("\u{e9} b".as_bytes()), Ok("b"));
    assert_eq!(connect_target("a \u{e9}".as_bytes()), Ok("\u{e9}"));
    assert_eq!(connect_target("a \u{65e5}\u{672c} c".as_bytes()), Ok("\u{65e5}\u{672c}"));
    assert_eq!(connect_target("a\u{1f600} \u{1f600}\u{1f600} \u{1f600}".as_bytes()), Ok("\u{1f600}\u{1f600}"));
}

#[test]
fn target_is_borrowed_from_the_request() {
    let request = b"CONNECT example.com:443 HTTP/1.1".to_vec();
    let target = connect_target(&request).unwrap();
    assert_eq!(target.as_ptr(), request[8..].as_ptr());
    assert_eq!(target.len(), 15);
}

#[test]
fn request_of_the_longest_length_is_read() {
    assert_eq!(REQUEST_LIMIT, 2000);
    let mut request = b"CONNECT ".to_vec();
    while request.len() < REQUEST_LIMIT {
        request.push(b'a');
    }
    let target = connect_target(&request).unwrap();
    assert_eq!(target.len(), 1992);
    assert!(target.bytes().all(|b| b == b'a'));
}

#[test]
fn response_is_the_fixed_text() {
    assert_eq!(ok_response(), "HTTP/1.1 200 OK\r\n\r\n");
    assert_eq!(
        ok_response().as_bytes(),
        &[
            0x48, 0x54, 0x54, 0x50, 0x2f, 0x31, 0x2e, 0x31, 0x20, 0x32, 0x30, 0x30, 0x20, 0x4f,
            0x4b, 0x0d, 0x0a, 0x0d, 0x0a
        ]
    );
}

#[test]
fn handshake_accepts_with_response_and_target() {
    let reply = handshake(b"CONNECT example.com:443 HTTP/1.1\r\n\r\n");
    assert_eq!(
        reply,
        Ok(Reply { response: "HTTP/1.1 200 OK\r\n\r\n", target: "example.com:443" })
    );
}

#[test]
fn handshake_rejects_without_a_response() {
    assert_eq!(handshake(b""), Err(ProxyError::EmptyRequest));
    assert_eq!(handshake(b"CONNECT"), Err(ProxyError::InvalidRequest));
    assert_eq!(handshake(b"CONNECT\xff x"), Err(ProxyError::ParseError));
}
