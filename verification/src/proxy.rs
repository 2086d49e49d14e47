//! The per-connection decisions: classify an accepted request, normalize a
//! host for resolution, and name the URL a finished tunnel is logged under.

use vstd::prelude::*;

use crate::codec::header_lookup;
use crate::lit::{
    lit_connect_method, lit_host_key, lit_http_scheme, lit_port_80_suffix, spec_connect_method,
    spec_host_key, spec_http_scheme, spec_https_scheme, spec_port_80_suffix,
};
use crate::request::HTTPRequest;
use crate::scan::{append_bytes, bytes_eq, copy_bytes, find_byte, find_byte_from, is_prefix_of,
    starts_with};

verus! {

/// What the handler does with an accepted request.
#[derive(PartialEq, Eq, Structural, Clone, Copy, Debug)]
pub enum RequestClass {
    /// The target is absolute-form `http://...`: rewrite and forward.
    ForwardHttp,
    /// A `CONNECT` with a `Host` header: open the intercepted tunnel.
    ConnectTunnel,
    /// Anything else is answered with the fixed 501 response.
    Unsupported,
}

/// Classify a request as the handler's state machine does: an absolute-form
/// `http://` target is forwarded; otherwise a `CONNECT` carrying a `Host`
/// header opens a tunnel; everything else is rejected.
pub fn classify_request(req: &HTTPRequest) -> (r: RequestClass)
    ensures
        (r == RequestClass::ForwardHttp) == is_prefix_of(spec_http_scheme(), req@.path),
        (r == RequestClass::ConnectTunnel) == (!is_prefix_of(spec_http_scheme(), req@.path)
            && req@.method == spec_connect_method() && header_lookup(
            req@.headers,
            spec_host_key(),
        ) is Some),
        (r == RequestClass::Unsupported) == (!is_prefix_of(spec_http_scheme(), req@.path) && !(
        req@.method == spec_connect_method() && header_lookup(
            req@.headers,
            spec_host_key(),
        ) is Some)),
{
    let scheme = lit_http_scheme();
    if starts_with(&req.path, &scheme) {
        return RequestClass::ForwardHttp;
    }
    let connect = lit_connect_method();
    if bytes_eq(&req.method, &connect) {
        let host_key = lit_host_key();
        match req.get_header_value(&host_key) {
            Some(_) => RequestClass::ConnectTunnel,
            None => RequestClass::Unsupported,
        }
    } else {
        RequestClass::Unsupported
    }
}

/// The string handed to the resolver: the host as given when it already
/// carries a `:port`, else with `:80` appended.
pub open spec fn spec_host_with_port(host: Seq<u8>) -> Seq<u8> {
    match find_byte_from(host, 58u8, 0) {
        Some(_) => host,
        None => host + spec_port_80_suffix(),
    }
}

/// Append the default port to a port-less host.
pub fn host_with_port(host: &Vec<u8>) -> (r: Vec<u8>)
    ensures
        r@ == spec_host_with_port(host@),
        find_byte_from(host@, 58u8, 0) is None ==> r@ == host@ + spec_port_80_suffix(),
{
    match find_byte(host, 58u8, 0) {
        Some(_) => copy_bytes(host),
        None => {
            let mut out = copy_bytes(host);
            let suffix = lit_port_80_suffix();
            append_bytes(&mut out, &suffix);
            out
        },
    }
}

/// The URL a finished tunnel is logged under.
pub open spec fn spec_tunnel_url(host: Seq<u8>, path: Seq<u8>) -> Seq<u8> {
    spec_https_scheme() + host + path
}

/// `https://{host}{path}` for the observability output of the tunnel.
pub fn tunnel_url(host: &Vec<u8>, path: &Vec<u8>) -> (r: Vec<u8>)
    ensures
        r@ == spec_tunnel_url(host@, path@),
{
    let mut out = crate::lit::lit_https_scheme();
    append_bytes(&mut out, host);
    append_bytes(&mut out, path);
    out
}

} // verus!
