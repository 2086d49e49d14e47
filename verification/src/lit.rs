//! The fixed byte strings of the HTTP/1.1 wire format, each as a spec
//! sequence paired with an executable constructor proved against it.

use vstd::prelude::*;

verus! {

/// `"HTTP/1.1"` — protocol token.
pub open spec fn spec_http11() -> Seq<u8> {
    seq![72u8, 84u8, 84u8, 80u8, 47u8, 49u8, 46u8, 49u8]
}

pub fn lit_http11() -> (r: Vec<u8>)
    ensures
        r@ == spec_http11(),
{
    let mut v: Vec<u8> = Vec::new();
    v.push(72u8);
    v.push(84u8);
    v.push(84u8);
    v.push(80u8);
    v.push(47u8);
    v.push(49u8);
    v.push(46u8);
    v.push(49u8);
    proof {
        assert(v@ =~= spec_http11());
    }
    v
}

/// `": "` — header name/value separator.
pub open spec fn spec_colon_sp() -> Seq<u8> {
    seq![58u8, 32u8]
}

pub fn lit_colon_sp() -> (r: Vec<u8>)
    ensures
        r@ == spec_colon_sp(),
{
    let mut v: Vec<u8> = Vec::new();
    v.push(58u8);
    v.push(32u8);
    proof {
        assert(v@ =~= spec_colon_sp());
    }
    v
}

/// `"\r\n"` — line terminator.
pub open spec fn spec_crlf() -> Seq<u8> {
    seq![13u8, 10u8]
}

pub fn lit_crlf() -> (r: Vec<u8>)
    ensures
        r@ == spec_crlf(),
{
    let mut v: Vec<u8> = Vec::new();
    v.push(13u8);
    v.push(10u8);
    proof {
        assert(v@ =~= spec_crlf());
    }
    v
}

/// `"Host"` — Host header name.
pub open spec fn spec_host_key() -> Seq<u8> {
    seq![72u8, 111u8, 115u8, 116u8]
}

pub fn lit_host_key() -> (r: Vec<u8>)
    ensures
        r@ == spec_host_key(),
{
    let mut v: Vec<u8> = Vec::new();
    v.push(72u8);
    v.push(111u8);
    v.push(115u8);
    v.push(116u8);
    proof {
        assert(v@ =~= spec_host_key());
    }
    v
}

/// `"Connection"` — Connection header name.
pub open spec fn spec_connection_key() -> Seq<u8> {
    seq![67u8, 111u8, 110u8, 110u8, 101u8, 99u8, 116u8, 105u8, 111u8, 110u8]
}

pub fn lit_connection_key() -> (r: Vec<u8>)
    ensures
        r@ == spec_connection_key(),
{
    let mut v: Vec<u8> = Vec::new();
    v.push(67u8);
    v.push(111u8);
    v.push(110u8);
    v.push(110u8);
    v.push(101u8);
    v.push(99u8);
    v.push(116u8);
    v.push(105u8);
    v.push(111u8);
    v.push(110u8);
    proof {
        assert(v@ =~= spec_connection_key());
    }
    v
}

/// `"Proxy-Connection"` — Proxy-Connection header name.
pub open spec fn spec_proxy_connection_key() -> Seq<u8> {
    seq![80u8, 114u8, 111u8, 120u8, 121u8, 45u8, 67u8, 111u8, 110u8, 110u8, 101u8, 99u8, 116u8, 105u8, 111u8, 110u8]
}

pub fn lit_proxy_connection_key() -> (r: Vec<u8>)
    ensures
        r@ == spec_proxy_connection_key(),
{
    let mut v: Vec<u8> = Vec::new();
    v.push(80u8);
    v.push(114u8);
    v.push(111u8);
    v.push(120u8);
    v.push(121u8);
    v.push(45u8);
    v.push(67u8);
    v.push(111u8);
    v.push(110u8);
    v.push(110u8);
    v.push(101u8);
    v.push(99u8);
    v.push(116u8);
    v.push(105u8);
    v.push(111u8);
    v.push(110u8);
    proof {
        assert(v@ =~= spec_proxy_connection_key());
    }
    v
}

/// `"close"` — forced Connection value.
pub open spec fn spec_close_value() -> Seq<u8> {
    seq![99u8, 108u8, 111u8, 115u8, 101u8]
}

pub fn lit_close_value() -> (r: Vec<u8>)
    ensures
        r@ == spec_close_value(),
{
    let mut v: Vec<u8> = Vec::new();
    v.push(99u8);
    v.push(108u8);
    v.push(111u8);
    v.push(115u8);
    v.push(101u8);
    proof {
        assert(v@ =~= spec_close_value());
    }
    v
}

/// `"Content-Length"` — Content-Length header name.
pub open spec fn spec_content_length_key() -> Seq<u8> {
    seq![67u8, 111u8, 110u8, 116u8, 101u8, 110u8, 116u8, 45u8, 76u8, 101u8, 110u8, 103u8, 116u8, 104u8]
}

pub fn lit_content_length_key() -> (r: Vec<u8>)
    ensures
        r@ == spec_content_length_key(),
{
    let mut v: Vec<u8> = Vec::new();
    v.push(67u8);
    v.push(111u8);
    v.push(110u8);
    v.push(116u8);
    v.push(101u8);
    v.push(110u8);
    v.push(116u8);
    v.push(45u8);
    v.push(76u8);
    v.push(101u8);
    v.push(110u8);
    v.push(103u8);
    v.push(116u8);
    v.push(104u8);
    proof {
        assert(v@ =~= spec_content_length_key());
    }
    v
}

/// `"CONNECT"` — CONNECT method token.
pub open spec fn spec_connect_method() -> Seq<u8> {
    seq![67u8, 79u8, 78u8, 78u8, 69u8, 67u8, 84u8]
}

pub fn lit_connect_method() -> (r: Vec<u8>)
    ensures
        r@ == spec_connect_method(),
{
    let mut v: Vec<u8> = Vec::new();
    v.push(67u8);
    v.push(79u8);
    v.push(78u8);
    v.push(78u8);
    v.push(69u8);
    v.push(67u8);
    v.push(84u8);
    proof {
        assert(v@ =~= spec_connect_method());
    }
    v
}

/// `"http://"` — absolute-form target prefix.
pub open spec fn spec_http_scheme() -> Seq<u8> {
    seq![104u8, 116u8, 116u8, 112u8, 58u8, 47u8, 47u8]
}

pub fn lit_http_scheme() -> (r: Vec<u8>)
    ensures
        r@ == spec_http_scheme(),
{
    let mut v: Vec<u8> = Vec::new();
    v.push(104u8);
    v.push(116u8);
    v.push(116u8);
    v.push(112u8);
    v.push(58u8);
    v.push(47u8);
    v.push(47u8);
    proof {
        assert(v@ =~= spec_http_scheme());
    }
    v
}

/// `":80"` — default port suffix for the resolver.
pub open spec fn spec_port_80_suffix() -> Seq<u8> {
    seq![58u8, 56u8, 48u8]
}

pub fn lit_port_80_suffix() -> (r: Vec<u8>)
    ensures
        r@ == spec_port_80_suffix(),
{
    let mut v: Vec<u8> = Vec::new();
    v.push(58u8);
    v.push(56u8);
    v.push(48u8);
    proof {
        assert(v@ =~= spec_port_80_suffix());
    }
    v
}

/// `"https://"` — scheme of the synthetic URL logged after a tunnel.
pub open spec fn spec_https_scheme() -> Seq<u8> {
    seq![104u8, 116u8, 116u8, 112u8, 115u8, 58u8, 47u8, 47u8]
}

pub fn lit_https_scheme() -> (r: Vec<u8>)
    ensures
        r@ == spec_https_scheme(),
{
    let mut v: Vec<u8> = Vec::new();
    v.push(104u8);
    v.push(116u8);
    v.push(116u8);
    v.push(112u8);
    v.push(115u8);
    v.push(58u8);
    v.push(47u8);
    v.push(47u8);
    proof {
        assert(v@ =~= spec_https_scheme());
    }
    v
}

/// `"HTTP/1.1 200 OK\r\n\r\n"` — bytes sent to the client when a tunnel opens.
pub open spec fn spec_connect_established() -> Seq<u8> {
    seq![72u8, 84u8, 84u8, 80u8, 47u8, 49u8, 46u8, 49u8, 32u8, 50u8, 48u8, 48u8, 32u8, 79u8, 75u8, 13u8, 10u8, 13u8, 10u8]
}

pub fn lit_connect_established() -> (r: Vec<u8>)
    ensures
        r@ == spec_connect_established(),
{
    let mut v: Vec<u8> = Vec::new();
    v.push(72u8);
    v.push(84u8);
    v.push(84u8);
    v.push(80u8);
    v.push(47u8);
    v.push(49u8);
    v.push(46u8);
    v.push(49u8);
    v.push(32u8);
    v.push(50u8);
    v.push(48u8);
    v.push(48u8);
    v.push(32u8);
    v.push(79u8);
    v.push(75u8);
    v.push(13u8);
    v.push(10u8);
    v.push(13u8);
    v.push(10u8);
    proof {
        assert(v@ =~= spec_connect_established());
    }
    v
}

/// `"100 Continue"` — status line text.
pub open spec fn spec_reason_100() -> Seq<u8> {
    seq![49u8, 48u8, 48u8, 32u8, 67u8, 111u8, 110u8, 116u8, 105u8, 110u8, 117u8, 101u8]
}

pub fn lit_reason_100() -> (r: Vec<u8>)
    ensures
        r@ == spec_reason_100(),
{
    let mut v: Vec<u8> = Vec::new();
    v.push(49u8);
    v.push(48u8);
    v.push(48u8);
    v.push(32u8);
    v.push(67u8);
    v.push(111u8);
    v.push(110u8);
    v.push(116u8);
    v.push(105u8);
    v.push(110u8);
    v.push(117u8);
    v.push(101u8);
    proof {
        assert(v@ =~= spec_reason_100());
    }
    v
}

/// `"200 OK"` — status line text.
pub open spec fn spec_reason_200() -> Seq<u8> {
    seq![50u8, 48u8, 48u8, 32u8, 79u8, 75u8]
}

pub fn lit_reason_200() -> (r: Vec<u8>)
    ensures
        r@ == spec_reason_200(),
{
    let mut v: Vec<u8> = Vec::new();
    v.push(50u8);
    v.push(48u8);
    v.push(48u8);
    v.push(32u8);
    v.push(79u8);
    v.push(75u8);
    proof {
        assert(v@ =~= spec_reason_200());
    }
    v
}

/// `"301 Moved Permanently"` — status line text.
pub open spec fn spec_reason_301() -> Seq<u8> {
    seq![51u8, 48u8, 49u8, 32u8, 77u8, 111u8, 118u8, 101u8, 100u8, 32u8, 80u8, 101u8, 114u8, 109u8, 97u8, 110u8, 101u8, 110u8, 116u8, 108u8, 121u8]
}

pub fn lit_reason_301() -> (r: Vec<u8>)
    ensures
        r@ == spec_reason_301(),
{
    let mut v: Vec<u8> = Vec::new();
    v.push(51u8);
    v.push(48u8);
    v.push(49u8);
    v.push(32u8);
    v.push(77u8);
    v.push(111u8);
    v.push(118u8);
    v.push(101u8);
    v.push(100u8);
    v.push(32u8);
    v.push(80u8);
    v.push(101u8);
    v.push(114u8);
    v.push(109u8);
    v.push(97u8);
    v.push(110u8);
    v.push(101u8);
    v.push(110u8);
    v.push(116u8);
    v.push(108u8);
    v.push(121u8);
    proof {
        assert(v@ =~= spec_reason_301());
    }
    v
}

/// `"304 Not Modified"` — status line text.
pub open spec fn spec_reason_304() -> Seq<u8> {
    seq![51u8, 48u8, 52u8, 32u8, 78u8, 111u8, 116u8, 32u8, 77u8, 111u8, 100u8, 105u8, 102u8, 105u8, 101u8, 100u8]
}

pub fn lit_reason_304() -> (r: Vec<u8>)
    ensures
        r@ == spec_reason_304(),
{
    let mut v: Vec<u8> = Vec::new();
    v.push(51u8);
    v.push(48u8);
    v.push(52u8);
    v.push(32u8);
    v.push(78u8);
    v.push(111u8);
    v.push(116u8);
    v.push(32u8);
    v.push(77u8);
    v.push(111u8);
    v.push(100u8);
    v.push(105u8);
    v.push(102u8);
    v.push(105u8);
    v.push(101u8);
    v.push(100u8);
    proof {
        assert(v@ =~= spec_reason_304());
    }
    v
}

/// `"400 Bad Request"` — status line text.
pub open spec fn spec_reason_400() -> Seq<u8> {
    seq![52u8, 48u8, 48u8, 32u8, 66u8, 97u8, 100u8, 32u8, 82u8, 101u8, 113u8, 117u8, 101u8, 115u8, 116u8]
}

pub fn lit_reason_400() -> (r: Vec<u8>)
    ensures
        r@ == spec_reason_400(),
{
    let mut v: Vec<u8> = Vec::new();
    v.push(52u8);
    v.push(48u8);
    v.push(48u8);
    v.push(32u8);
    v.push(66u8);
    v.push(97u8);
    v.push(100u8);
    v.push(32u8);
    v.push(82u8);
    v.push(101u8);
    v.push(113u8);
    v.push(117u8);
    v.push(101u8);
    v.push(115u8);
    v.push(116u8);
    proof {
        assert(v@ =~= spec_reason_400());
    }
    v
}

/// `"401 Unauthorized"` — status line text.
pub open spec fn spec_reason_401() -> Seq<u8> {
    seq![52u8, 48u8, 49u8, 32u8, 85u8, 110u8, 97u8, 117u8, 116u8, 104u8, 111u8, 114u8, 105u8, 122u8, 101u8, 100u8]
}

pub fn lit_reason_401() -> (r: Vec<u8>)
    ensures
        r@ == spec_reason_401(),
{
    let mut v: Vec<u8> = Vec::new();
    v.push(52u8);
    v.push(48u8);
    v.push(49u8);
    v.push(32u8);
    v.push(85u8);
    v.push(110u8);
    v.push(97u8);
    v.push(117u8);
    v.push(116u8);
    v.push(104u8);
    v.push(111u8);
    v.push(114u8);
    v.push(105u8);
    v.push(122u8);
    v.push(101u8);
    v.push(100u8);
    proof {
        assert(v@ =~= spec_reason_401());
    }
    v
}

/// `"403 Forbidden"` — status line text.
pub open spec fn spec_reason_403() -> Seq<u8> {
    seq![52u8, 48u8, 51u8, 32u8, 70u8, 111u8, 114u8, 98u8, 105u8, 100u8, 100u8, 101u8, 110u8]
}

pub fn lit_reason_403() -> (r: Vec<u8>)
    ensures
        r@ == spec_reason_403(),
{
    let mut v: Vec<u8> = Vec::new();
    v.push(52u8);
    v.push(48u8);
    v.push(51u8);
    v.push(32u8);
    v.push(70u8);
    v.push(111u8);
    v.push(114u8);
    v.push(98u8);
    v.push(105u8);
    v.push(100u8);
    v.push(100u8);
    v.push(101u8);
    v.push(110u8);
    proof {
        assert(v@ =~= spec_reason_403());
    }
    v
}

/// `"404 Not Found"` — status line text.
pub open spec fn spec_reason_404() -> Seq<u8> {
    seq![52u8, 48u8, 52u8, 32u8, 78u8, 111u8, 116u8, 32u8, 70u8, 111u8, 117u8, 110u8, 100u8]
}

pub fn lit_reason_404() -> (r: Vec<u8>)
    ensures
        r@ == spec_reason_404(),
{
    let mut v: Vec<u8> = Vec::new();
    v.push(52u8);
    v.push(48u8);
    v.push(52u8);
    v.push(32u8);
    v.push(78u8);
    v.push(111u8);
    v.push(116u8);
    v.push(32u8);
    v.push(70u8);
    v.push(111u8);
    v.push(117u8);
    v.push(110u8);
    v.push(100u8);
    proof {
        assert(v@ =~= spec_reason_404());
    }
    v
}

/// `"405 Method Not Allowed"` — status line text.
pub open spec fn spec_reason_405() -> Seq<u8> {
    seq![52u8, 48u8, 53u8, 32u8, 77u8, 101u8, 116u8, 104u8, 111u8, 100u8, 32u8, 78u8, 111u8, 116u8, 32u8, 65u8, 108u8, 108u8, 111u8, 119u8, 101u8, 100u8]
}

pub fn lit_reason_405() -> (r: Vec<u8>)
    ensures
        r@ == spec_reason_405(),
{
    let mut v: Vec<u8> = Vec::new();
    v.push(52u8);
    v.push(48u8);
    v.push(53u8);
    v.push(32u8);
    v.push(77u8);
    v.push(101u8);
    v.push(116u8);
    v.push(104u8);
    v.push(111u8);
    v.push(100u8);
    v.push(32u8);
    v.push(78u8);
    v.push(111u8);
    v.push(116u8);
    v.push(32u8);
    v.push(65u8);
    v.push(108u8);
    v.push(108u8);
    v.push(111u8);
    v.push(119u8);
    v.push(101u8);
    v.push(100u8);
    proof {
        assert(v@ =~= spec_reason_405());
    }
    v
}

/// `"418 I'm a teapot"` — status line text.
pub open spec fn spec_reason_418() -> Seq<u8> {
    seq![52u8, 49u8, 56u8, 32u8, 73u8, 39u8, 109u8, 32u8, 97u8, 32u8, 116u8, 101u8, 97u8, 112u8, 111u8, 116u8]
}

pub fn lit_reason_418() -> (r: Vec<u8>)
    ensures
        r@ == spec_reason_418(),
{
    let mut v: Vec<u8> = Vec::new();
    v.push(52u8);
    v.push(49u8);
    v.push(56u8);
    v.push(32u8);
    v.push(73u8);
    v.push(39u8);
    v.push(109u8);
    v.push(32u8);
    v.push(97u8);
    v.push(32u8);
    v.push(116u8);
    v.push(101u8);
    v.push(97u8);
    v.push(112u8);
    v.push(111u8);
    v.push(116u8);
    proof {
        assert(v@ =~= spec_reason_418());
    }
    v
}

/// `"500 Internal Server Error"` — status line text.
pub open spec fn spec_reason_500() -> Seq<u8> {
    seq![53u8, 48u8, 48u8, 32u8, 73u8, 110u8, 116u8, 101u8, 114u8, 110u8, 97u8, 108u8, 32u8, 83u8, 101u8, 114u8, 118u8, 101u8, 114u8, 32u8, 69u8, 114u8, 114u8, 111u8, 114u8]
}

pub fn lit_reason_500() -> (r: Vec<u8>)
    ensures
        r@ == spec_reason_500(),
{
    let mut v: Vec<u8> = Vec::new();
    v.push(53u8);
    v.push(48u8);
    v.push(48u8);
    v.push(32u8);
    v.push(73u8);
    v.push(110u8);
    v.push(116u8);
    v.push(101u8);
    v.push(114u8);
    v.push(110u8);
    v.push(97u8);
    v.push(108u8);
    v.push(32u8);
    v.push(83u8);
    v.push(101u8);
    v.push(114u8);
    v.push(118u8);
    v.push(101u8);
    v.push(114u8);
    v.push(32u8);
    v.push(69u8);
    v.push(114u8);
    v.push(114u8);
    v.push(111u8);
    v.push(114u8);
    proof {
        assert(v@ =~= spec_reason_500());
    }
    v
}

/// `"501 Not Implemented"` — status line text.
pub open spec fn spec_reason_501() -> Seq<u8> {
    seq![53u8, 48u8, 49u8, 32u8, 78u8, 111u8, 116u8, 32u8, 73u8, 109u8, 112u8, 108u8, 101u8, 109u8, 101u8, 110u8, 116u8, 101u8, 100u8]
}

pub fn lit_reason_501() -> (r: Vec<u8>)
    ensures
        r@ == spec_reason_501(),
{
    let mut v: Vec<u8> = Vec::new();
    v.push(53u8);
    v.push(48u8);
    v.push(49u8);
    v.push(32u8);
    v.push(78u8);
    v.push(111u8);
    v.push(116u8);
    v.push(32u8);
    v.push(73u8);
    v.push(109u8);
    v.push(112u8);
    v.push(108u8);
    v.push(101u8);
    v.push(109u8);
    v.push(101u8);
    v.push(110u8);
    v.push(116u8);
    v.push(101u8);
    v.push(100u8);
    proof {
        assert(v@ =~= spec_reason_501());
    }
    v
}

/// `"502 Bad Gateway"` — status line text.
pub open spec fn spec_reason_502() -> Seq<u8> {
    seq![53u8, 48u8, 50u8, 32u8, 66u8, 97u8, 100u8, 32u8, 71u8, 97u8, 116u8, 101u8, 119u8, 97u8, 121u8]
}

pub fn lit_reason_502() -> (r: Vec<u8>)
    ensures
        r@ == spec_reason_502(),
{
    let mut v: Vec<u8> = Vec::new();
    v.push(53u8);
    v.push(48u8);
    v.push(50u8);
    v.push(32u8);
    v.push(66u8);
    v.push(97u8);
    v.push(100u8);
    v.push(32u8);
    v.push(71u8);
    v.push(97u8);
    v.push(116u8);
    v.push(101u8);
    v.push(119u8);
    v.push(97u8);
    v.push(121u8);
    proof {
        assert(v@ =~= spec_reason_502());
    }
    v
}

/// First line of the fixed body of the 501 response.
pub open spec fn spec_body_501_head() -> Seq<u8> {
    seq![60u8, 104u8, 116u8, 109u8, 108u8, 62u8, 60u8, 98u8, 111u8, 100u8, 121u8, 62u8, 60u8, 104u8, 49u8, 62u8, 53u8, 48u8, 49u8, 32u8, 78u8, 111u8, 116u8, 32u8, 73u8, 109u8, 112u8, 108u8, 101u8, 109u8, 101u8, 110u8, 116u8, 101u8, 100u8, 60u8, 47u8, 104u8, 49u8, 62u8, 10u8]
}

/// Second line of the fixed body of the 501 response.
pub open spec fn spec_body_501_tail() -> Seq<u8> {
    seq![60u8, 112u8, 62u8, 84u8, 104u8, 105u8, 115u8, 32u8, 112u8, 114u8, 111u8, 120u8, 121u8, 32u8, 100u8, 111u8, 101u8, 115u8, 110u8, 39u8, 116u8, 32u8, 115u8, 117u8, 112u8, 112u8, 111u8, 114u8, 116u8, 32u8, 116u8, 104u8, 105u8, 115u8, 32u8, 112u8, 114u8, 111u8, 116u8, 111u8, 99u8, 111u8, 108u8, 46u8, 60u8, 47u8, 112u8, 62u8, 60u8, 47u8, 98u8, 111u8, 100u8, 121u8, 62u8, 60u8, 47u8, 104u8, 116u8, 109u8, 108u8, 62u8, 10u8]
}

/// The fixed body of the 501 response, bit for bit.
pub open spec fn spec_body_501() -> Seq<u8> {
    spec_body_501_head() + spec_body_501_tail()
}

fn lit_body_501_head() -> (r: Vec<u8>)
    ensures
        r@ == spec_body_501_head(),
{
    let mut v: Vec<u8> = Vec::new();
    v.push(60u8);
    v.push(104u8);
    v.push(116u8);
    v.push(109u8);
    v.push(108u8);
    v.push(62u8);
    v.push(60u8);
    v.push(98u8);
    v.push(111u8);
    v.push(100u8);
    v.push(121u8);
    v.push(62u8);
    v.push(60u8);
    v.push(104u8);
    v.push(49u8);
    v.push(62u8);
    v.push(53u8);
    v.push(48u8);
    v.push(49u8);
    v.push(32u8);
    v.push(78u8);
    v.push(111u8);
    v.push(116u8);
    v.push(32u8);
    v.push(73u8);
    v.push(109u8);
    v.push(112u8);
    v.push(108u8);
    v.push(101u8);
    v.push(109u8);
    v.push(101u8);
    v.push(110u8);
    v.push(116u8);
    v.push(101u8);
    v.push(100u8);
    v.push(60u8);
    v.push(47u8);
    v.push(104u8);
    v.push(49u8);
    v.push(62u8);
    v.push(10u8);
    proof {
        assert(v@ =~= spec_body_501_head());
    }
    v
}

#[verifier::rlimit(50)]
fn lit_body_501_tail() -> (r: Vec<u8>)
    ensures
        r@ == spec_body_501_tail(),
{
    let mut v: Vec<u8> = Vec::new();
    v.push(60u8);
    v.push(112u8);
    v.push(62u8);
    v.push(84u8);
    v.push(104u8);
    v.push(105u8);
    v.push(115u8);
    v.push(32u8);
    v.push(112u8);
    v.push(114u8);
    v.push(111u8);
    v.push(120u8);
    v.push(121u8);
    v.push(32u8);
    v.push(100u8);
    v.push(111u8);
    v.push(101u8);
    v.push(115u8);
    v.push(110u8);
    v.push(39u8);
    v.push(116u8);
    v.push(32u8);
    v.push(115u8);
    v.push(117u8);
    v.push(112u8);
    v.push(112u8);
    v.push(111u8);
    v.push(114u8);
    v.push(116u8);
    v.push(32u8);
    v.push(116u8);
    v.push(104u8);
    v.push(105u8);
    v.push(115u8);
    v.push(32u8);
    v.push(112u8);
    v.push(114u8);
    v.push(111u8);
    v.push(116u8);
    v.push(111u8);
    v.push(99u8);
    v.push(111u8);
    v.push(108u8);
    v.push(46u8);
    v.push(60u8);
    v.push(47u8);
    v.push(112u8);
    v.push(62u8);
    v.push(60u8);
    v.push(47u8);
    v.push(98u8);
    v.push(111u8);
    v.push(100u8);
    v.push(121u8);
    v.push(62u8);
    v.push(60u8);
    v.push(47u8);
    v.push(104u8);
    v.push(116u8);
    v.push(109u8);
    v.push(108u8);
    v.push(62u8);
    v.push(10u8);
    proof {
        assert(v@ =~= spec_body_501_tail());
    }
    v
}

pub fn lit_body_501() -> (r: Vec<u8>)
    ensures
        r@ == spec_body_501(),
{
    let mut v = lit_body_501_head();
    let w = lit_body_501_tail();
    crate::scan::append_bytes(&mut v, &w);
    v
}

} // verus!
