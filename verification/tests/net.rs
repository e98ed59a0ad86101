use ben_shell::capture::Channel;
use ben_shell::http::{decode_chunked, parse_hex, parse_request_line, ResponseCode};
use ben_shell::slides::join;

#[test]
fn chunked_body_reassembles() {
    let body: Vec<u8> = b"4\r\nWiki\r\n5\r\npedia\r\n0\r\n\r\n".to_vec();
    let decoded = decode_chunked(&body).unwrap();
    assert_eq!(decoded, b"Wikipedia".to_vec());
}

#[test]
fn chunked_body_stops_at_an_empty_length_line() {
    let body: Vec<u8> = b"2\r\nab\r\n\r\nleftover".to_vec();
    let decoded = decode_chunked(&body).unwrap();
    assert_eq!(decoded, b"ab".to_vec());
}

#[test]
fn malformed_chunk_length_is_refused() {
    let body: Vec<u8> = b"zz\r\ndata".to_vec();
    assert!(decode_chunked(&body).is_none());
    let short: Vec<u8> = b"ff\r\ntiny\r\n".to_vec();
    assert!(decode_chunked(&short).is_none());
}

#[test]
fn hex_lengths_parse_like_the_standard_library() {
    assert_eq!(parse_hex(&b"1A".to_vec()), Some(26));
    assert_eq!(parse_hex(&b"+ff".to_vec()), Some(255));
    assert_eq!(parse_hex(&b"".to_vec()), None);
    assert_eq!(parse_hex(&b"1g".to_vec()), None);
}

#[test]
fn request_line_splits_method_and_path() {
    let data: Vec<u8> = b"GET /index.html HTTP/1.1\r\nHost: x\r\n".to_vec();
    let req = parse_request_line(&data).unwrap();
    assert_eq!(req.method, b"GET".to_vec());
    assert_eq!(req.path, b"/index.html".to_vec());
    assert!(req.headers.starts_with(b"HTTP/1.1"));
    assert!(parse_request_line(&b"nospace".to_vec()).is_none());
}

#[test]
fn response_headers_split_off_the_body() {
    let text = "HTTP/1.1 200 OK\r\nLocation: /elsewhere\r\nTransfer-Encoding: chunked\r\n\r\npayload";
    let head = ben_shell::http::split_response(&ben_shell::text::str_to_chars(text));
    assert!(head.chunked);
    assert_eq!(head.redirects.len(), 1);
    assert_eq!(ben_shell::text::chars_to_string(&head.redirects[0]), "/elsewhere");
    assert_eq!(
        ben_shell::text::chars_to_string(&head.body.unwrap()),
        "payload"
    );
}

#[test]
fn a_response_without_a_body_has_none() {
    let text = "HTTP/1.1 200 OK\r\nContent-Length: 0\r\n\r\n";
    let head = ben_shell::http::split_response(&ben_shell::text::str_to_chars(text));
    assert!(!head.chunked);
    assert!(head.body.is_none());
}

#[test]
fn status_lines_for_known_codes() {
    assert_eq!(ResponseCode::ok().status_text(), Some("200 OK"));
    assert_eq!(ResponseCode::not_found().status_text(), Some("404 Not Found"));
    assert_eq!(ResponseCode(500).status_text(), None);
}

#[test]
fn channels_distinguish_the_streams() {
    assert!(!Channel::Stdout.is_error());
    assert!(Channel::Stderr.is_error());
    assert_ne!(Channel::Stdout, Channel::Stderr);
}

#[test]
fn slide_location_header_drops_the_last_element() {
    let parts = vec![String::from("A"), String::from("B"), String::from("C")];
    assert_eq!(join(&parts), "<h5 class=\"location\">A / B</h5>");
    let single = vec![String::from("A")];
    assert_eq!(join(&single), "<h5 class=\"location\"></h5>");
    let none: Vec<String> = Vec::new();
    assert_eq!(join(&none), "");
}
