use http_proxy::frame::{frame_request_chunks, frame_response_chunks, try_frame_request};
use http_proxy::request::HTTPRequest;
use http_proxy::response::HTTPResponse;

fn req(method: &[u8], path: &[u8], headers: &[(&[u8], &[u8])], body: &[u8]) -> HTTPRequest {
    HTTPRequest {
        method: method.to_vec(),
        path: path.to_vec(),
        protocol: b"HTTP/1.1".to_vec(),
        headers: headers.iter().map(|(k, v)| (k.to_vec(), v.to_vec())).collect(),
        body: body.to_vec(),
    }
}

#[test]
fn parse_simple_request() {
    let buf = b"GET /index.html HTTP/1.1\r\nHost: example.com\r\n\r\n".to_vec();
    let r = HTTPRequest::parse_message(&buf).unwrap();
    assert_eq!(r.method, b"GET".to_vec());
    assert_eq!(r.path, b"/index.html".to_vec());
    assert_eq!(r.protocol, b"HTTP/1.1".to_vec());
    assert_eq!(r.headers, vec![(b"Host".to_vec(), b"example.com".to_vec())]);
    assert_eq!(r.body, Vec::<u8>::new());
}

#[test]
fn parse_request_with_body_and_length() {
    // A POST with Content-Length equal to the body on hand parses and is
    // framed at once, without waiting for more bytes.
    let buf = b"POST http://h/ HTTP/1.1\r\nHost: h\r\nContent-Length: 5\r\n\r\nHELLO".to_vec();
    let r = HTTPRequest::parse_message(&buf).unwrap();
    assert_eq!(r.body, b"HELLO".to_vec());
    let framed = try_frame_request(&buf).unwrap();
    assert_eq!(framed.method, b"POST".to_vec());
    assert_eq!(framed.body, b"HELLO".to_vec());
}

#[test]
fn parse_incomplete_header_block() {
    let buf = b"GET / HTTP/1.1\r\nHost: x\r\n".to_vec();
    assert!(HTTPRequest::parse_message(&buf).is_none());
}

#[test]
fn parse_header_line_without_separator() {
    let buf = b"GET / HTTP/1.1\r\nbadheader\r\n\r\n".to_vec();
    assert!(HTTPRequest::parse_message(&buf).is_none());
}

#[test]
fn parse_wrong_protocol() {
    let buf = b"GET / HTTP/1.0\r\n\r\n".to_vec();
    assert!(HTTPRequest::parse_message(&buf).is_none());
}

#[test]
fn parse_start_line_with_four_tokens() {
    let buf = b"GET /a b HTTP/1.1\r\n\r\n".to_vec();
    assert!(HTTPRequest::parse_message(&buf).is_none());
}

#[test]
fn parse_empty_buffer() {
    assert!(HTTPRequest::parse_message(&Vec::new()).is_none());
    assert!(HTTPResponse::parse_message(&Vec::new()).is_none());
}

#[test]
fn build_request_forces_connection_and_drops_proxy_connection() {
    let r = req(
        b"GET",
        b"/",
        &[
            (b"Host", b"example.com"),
            (b"Connection", b"keep-alive"),
            (b"Proxy-Connection", b"keep-alive"),
            (b"Accept", b"*/*"),
        ],
        b"",
    );
    let msg = r.build_message();
    assert_eq!(
        msg,
        b"GET / HTTP/1.1\r\nHost: example.com\r\nConnection: close\r\nAccept: */*\r\n\r\n"
            .to_vec()
    );
}

#[test]
fn request_round_trip() {
    // A request whose headers the serializer would not change parses back
    // equal, field for field.
    let r = req(
        b"POST",
        b"/submit",
        &[(b"Host", b"h"), (b"Connection", b"close"), (b"Content-Length", b"3")],
        b"abc",
    );
    let msg = r.build_message();
    let back = HTTPRequest::parse_message(&msg).unwrap();
    assert_eq!(back.method, r.method);
    assert_eq!(back.path, r.path);
    assert_eq!(back.protocol, r.protocol);
    assert_eq!(back.headers, r.headers);
    assert_eq!(back.body, r.body);
}

#[test]
fn request_parse_is_monotonic() {
    // The prefix has no complete header block: no message. Grown by the
    // missing bytes it parses, and to the same message a full parse gives.
    let prefix = b"GET / HTTP/1.1\r\nHost: x".to_vec();
    assert!(HTTPRequest::parse_message(&prefix).is_none());
    let mut full = prefix.clone();
    full.extend_from_slice(b"\r\n\r\n");
    let m = HTTPRequest::parse_message(&full).unwrap();
    assert_eq!(m.method, b"GET".to_vec());
    assert_eq!(m.headers, vec![(b"Host".to_vec(), b"x".to_vec())]);
}

#[test]
fn parse_simple_response() {
    let buf = b"HTTP/1.1 200 OK\r\nContent-Length: 3\r\n\r\nOK!".to_vec();
    let r = HTTPResponse::parse_message(&buf).unwrap();
    assert_eq!(r.status_code, 200);
    assert_eq!(r.headers, vec![(b"Content-Length".to_vec(), b"3".to_vec())]);
    assert_eq!(r.body, b"OK!".to_vec());
}

#[test]
fn parse_response_rejects_bad_status() {
    assert!(HTTPResponse::parse_message(&b"HTTP/1.1 abc X\r\n\r\n".to_vec()).is_none());
    assert!(HTTPResponse::parse_message(&b"HTTP/1.1 0 X\r\n\r\n".to_vec()).is_none());
    assert!(HTTPResponse::parse_message(&b"ICY 200 OK\r\n\r\n".to_vec()).is_none());
}

#[test]
fn build_response_forces_connection() {
    let r = HTTPResponse {
        status_code: 418,
        headers: vec![
            (b"X-Tea".to_vec(), b"yes".to_vec()),
            (b"Connection".to_vec(), b"keep-alive".to_vec()),
        ],
        body: b"tea".to_vec(),
    };
    let msg = r.build_message();
    assert_eq!(
        msg,
        b"HTTP/1.1 418 I'm a teapot\r\nX-Tea: yes\r\nConnection: close\r\n\r\ntea".to_vec()
    );
}

#[test]
fn response_round_trip() {
    let r = HTTPResponse {
        status_code: 404,
        headers: vec![
            (b"Connection".to_vec(), b"close".to_vec()),
            (b"Content-Length".to_vec(), b"2".to_vec()),
        ],
        body: b"no".to_vec(),
    };
    let msg = r.build_message();
    let back = HTTPResponse::parse_message(&msg).unwrap();
    assert_eq!(back.status_code, r.status_code);
    assert_eq!(back.headers, r.headers);
    assert_eq!(back.body, r.body);
}

#[test]
fn error_501_is_bit_exact() {
    let r = HTTPResponse::create_501_error();
    let msg = r.build_message();
    let expected = b"HTTP/1.1 501 Not Implemented\r\nConnection: close\r\n\r\n\
<html><body><h1>501 Not Implemented</h1>\n\
<p>This proxy doesn't support this protocol.</p></body></html>\n"
        .to_vec();
    assert_eq!(msg, expected);
}

#[test]
fn header_lookup_takes_first_duplicate() {
    let r = req(b"GET", b"/", &[(b"A", b"one"), (b"A", b"two")], b"");
    assert_eq!(r.get_header_value(&b"A".to_vec()), Some(&b"one".to_vec()));
    assert_eq!(r.get_header_value(&b"B".to_vec()), None);
    let resp = HTTPResponse { status_code: 200, headers: vec![(b"K".to_vec(), b"v".to_vec())], body: Vec::new() };
    assert_eq!(resp.get_header_value(&b"K".to_vec()), Some(&b"v".to_vec()));
    assert_eq!(resp.get_header_value(&b"k".to_vec()), None);
}

#[test]
fn frame_request_short_body_returns_nothing() {
    // Content-Length larger than everything ever delivered: no message.
    let chunks = vec![
        b"POST / HTTP/1.1\r\nHost: h\r\nContent-Length: 10\r\n\r\n".to_vec(),
        b"HELLO".to_vec(),
    ];
    assert!(frame_request_chunks(&chunks).is_none());
}

#[test]
fn frame_request_bad_content_length_returns_nothing() {
    let chunks = vec![b"POST / HTTP/1.1\r\nContent-Length: abc\r\n\r\nx".to_vec()];
    assert!(frame_request_chunks(&chunks).is_none());
    let huge = vec![
        b"POST / HTTP/1.1\r\nContent-Length: 99999999999999999999999999\r\n\r\nx".to_vec(),
    ];
    assert!(frame_request_chunks(&huge).is_none());
}

#[test]
fn frame_request_without_length_returns_at_once() {
    let chunks = vec![b"GET / HTTP/1.1\r\nHost: h\r\n\r\n".to_vec()];
    let r = frame_request_chunks(&chunks).unwrap();
    assert_eq!(r.method, b"GET".to_vec());
}

#[test]
fn frame_response_split_between_headers_and_body() {
    // The headers arrive in one chunk, the body in the next: one response.
    let chunks = vec![
        b"HTTP/1.1 200 OK\r\nContent-Length: 3\r\n\r\n".to_vec(),
        b"OK!".to_vec(),
    ];
    let r = frame_response_chunks(&chunks).unwrap();
    assert_eq!(r.status_code, 200);
    assert_eq!(r.body, b"OK!".to_vec());
}

#[test]
fn frame_response_without_length_reads_to_close() {
    // No Content-Length: the body is everything after the headers, read
    // until the stream closes.
    let chunks = vec![
        b"HTTP/1.1 200 OK\r\nX: y\r\n\r\nfirst".to_vec(),
        b" second".to_vec(),
        b" third".to_vec(),
    ];
    let r = frame_response_chunks(&chunks).unwrap();
    assert_eq!(r.status_code, 200);
    assert_eq!(r.body, b"first second third".to_vec());
}

#[test]
fn frame_response_empty_stream() {
    assert!(frame_response_chunks(&Vec::new()).is_none());
    assert!(frame_request_chunks(&Vec::new()).is_none());
}

#[test]
fn reason_table_round_trips_every_supported_code() {
    for code in [100u32, 200, 301, 304, 400, 401, 403, 404, 405, 418, 500, 501, 502] {
        let r = HTTPResponse { status_code: code, headers: Vec::new(), body: Vec::new() };
        let back = HTTPResponse::parse_message(&r.build_message()).unwrap();
        assert_eq!(back.status_code, code);
    }
}

#[test]
fn duplicate_headers_survive_a_round_trip_in_order() {
    let r = req(
        b"GET",
        b"/",
        &[(b"Set-Thing", b"one"), (b"Set-Thing", b"two"), (b"Other", b"x")],
        b"",
    );
    let back = HTTPRequest::parse_message(&r.build_message()).unwrap();
    assert_eq!(back.headers, r.headers);
}
