use http_proxy::lit::lit_connect_established;
use http_proxy::proxy::{classify_request, host_with_port, tunnel_url, RequestClass};
use http_proxy::request::HTTPRequest;
use http_proxy::rewrite::rewrite_headers;

fn req(method: &[u8], path: &[u8], headers: &[(&[u8], &[u8])], body: &[u8]) -> HTTPRequest {
    HTTPRequest {
        method: method.to_vec(),
        path: path.to_vec(),
        protocol: b"HTTP/1.1".to_vec(),
        headers: headers.iter().map(|(k, v)| (k.to_vec(), v.to_vec())).collect(),
        body: body.to_vec(),
    }
}

#[test]
fn rewrite_absolute_form_to_relative() {
    // The client's absolute-form request becomes the origin-facing relative
    // form: Host first, hop headers rebuilt, everything else in order.
    let r = req(
        b"GET",
        b"http://example.com/",
        &[(b"Host", b"example.com"), (b"Proxy-Connection", b"keep-alive")],
        b"",
    );
    let up = r.build_request_for_proxy().unwrap();
    assert_eq!(up.method, b"GET".to_vec());
    assert_eq!(up.path, b"/".to_vec());
    assert_eq!(up.protocol, b"HTTP/1.1".to_vec());
    assert_eq!(
        up.headers,
        vec![
            (b"Host".to_vec(), b"example.com".to_vec()),
            (b"Connection".to_vec(), b"close".to_vec()),
            (b"Proxy-Connection".to_vec(), b"close".to_vec()),
        ]
    );
    assert_eq!(up.body, Vec::<u8>::new());
    // On the wire the serializer then forces Connection: close and drops
    // Proxy-Connection.
    assert_eq!(
        up.build_message(),
        b"GET / HTTP/1.1\r\nHost: example.com\r\nConnection: close\r\n\r\n".to_vec()
    );
}

#[test]
fn rewrite_keeps_query() {
    let r = req(
        b"GET",
        b"http://example.com/search?q=1&r=2",
        &[(b"Host", b"example.com")],
        b"",
    );
    let up = r.build_request_for_proxy().unwrap();
    assert_eq!(up.path, b"/search?q=1&r=2".to_vec());
}

#[test]
fn rewrite_sources_host_from_url_when_header_absent() {
    let r = req(b"GET", b"http://h.example/x", &[(b"Accept", b"*/*")], b"");
    let up = r.build_request_for_proxy().unwrap();
    assert_eq!(up.headers[0], (b"Host".to_vec(), b"h.example".to_vec()));
    assert_eq!(up.headers[1], (b"Accept".to_vec(), b"*/*".to_vec()));
}

#[test]
fn rewrite_keeps_other_headers_in_order_and_body() {
    let r = req(
        b"POST",
        b"http://h/",
        &[
            (b"A", b"1"),
            (b"Host", b"h"),
            (b"Connection", b"keep-alive"),
            (b"B", b"2"),
            (b"Host", b"again"),
        ],
        b"HELLO",
    );
    let up = r.build_request_for_proxy().unwrap();
    assert_eq!(
        up.headers,
        vec![
            (b"Host".to_vec(), b"h".to_vec()),
            (b"A".to_vec(), b"1".to_vec()),
            (b"B".to_vec(), b"2".to_vec()),
            (b"Connection".to_vec(), b"close".to_vec()),
            (b"Proxy-Connection".to_vec(), b"close".to_vec()),
        ]
    );
    assert_eq!(up.body, b"HELLO".to_vec());
}

#[test]
fn rewrite_rejects_target_without_host() {
    let r = req(b"GET", b"http://", &[], b"");
    assert!(r.build_request_for_proxy().is_none());
}

#[test]
fn rewrite_headers_is_idempotent() {
    let hs = vec![
        (b"Host".to_vec(), b"h".to_vec()),
        (b"Proxy-Connection".to_vec(), b"keep-alive".to_vec()),
        (b"X".to_vec(), b"y".to_vec()),
    ];
    let once = rewrite_headers(&hs, &b"u".to_vec());
    let twice = rewrite_headers(&once, &b"other".to_vec());
    assert_eq!(once, twice);
}

#[test]
fn rewritten_headers_shape() {
    // Host exactly once and first; Connection exactly once, value close;
    // the rest untouched, in order, before the appended pair.
    let hs = vec![
        (b"Connection".to_vec(), b"keep-alive".to_vec()),
        (b"X".to_vec(), b"1".to_vec()),
        (b"Host".to_vec(), b"a".to_vec()),
        (b"Host".to_vec(), b"b".to_vec()),
    ];
    let out = rewrite_headers(&hs, &b"u".to_vec());
    assert_eq!(
        out,
        vec![
            (b"Host".to_vec(), b"a".to_vec()),
            (b"X".to_vec(), b"1".to_vec()),
            (b"Connection".to_vec(), b"close".to_vec()),
            (b"Proxy-Connection".to_vec(), b"close".to_vec()),
        ]
    );
    let host_count = out.iter().filter(|(k, _)| k == b"Host").count();
    assert_eq!(host_count, 1);
}

#[test]
fn classify_absolute_form_forwards() {
    let r = req(b"GET", b"http://example.com/", &[(b"Host", b"example.com")], b"");
    assert_eq!(classify_request(&r), RequestClass::ForwardHttp);
}

#[test]
fn classify_connect_with_host_tunnels() {
    let r = req(
        b"CONNECT",
        b"example.com:443",
        &[(b"Host", b"example.com:443")],
        b"",
    );
    assert_eq!(classify_request(&r), RequestClass::ConnectTunnel);
}

#[test]
fn classify_connect_without_host_is_unsupported() {
    let r = req(b"CONNECT", b"example.com:443", &[], b"");
    assert_eq!(classify_request(&r), RequestClass::Unsupported);
}

#[test]
fn classify_other_method_is_unsupported() {
    let r = req(b"FOO", b"/bar", &[(b"Host", b"x")], b"");
    assert_eq!(classify_request(&r), RequestClass::Unsupported);
}

#[test]
fn connect_reply_is_bit_exact() {
    // The bytes sent to the client before the TLS handshake.
    assert_eq!(lit_connect_established(), b"HTTP/1.1 200 OK\r\n\r\n".to_vec());
}

#[test]
fn portless_host_gets_default_port() {
    assert_eq!(host_with_port(&b"example.com".to_vec()), b"example.com:80".to_vec());
    assert_eq!(
        host_with_port(&b"example.com:8080".to_vec()),
        b"example.com:8080".to_vec()
    );
}

#[test]
fn tunnel_url_names_host_and_path() {
    assert_eq!(
        tunnel_url(&b"example.com".to_vec(), &b"/index.html".to_vec()),
        b"https://example.com/index.html".to_vec()
    );
}

#[test]
fn rewrite_discards_fragment() {
    let r = req(
        b"GET",
        b"http://example.com/page?x=1#section",
        &[(b"Host", b"example.com")],
        b"",
    );
    let up = r.build_request_for_proxy().unwrap();
    assert_eq!(up.path, b"/page?x=1".to_vec());
}
