//! HTTP/1.1 requests: the structured message, parsing it out of raw bytes,
//! and building the bytes sent to an upstream server.

use vstd::prelude::*;

use crate::codec::{
    header_block_bytes, header_lookup, is_token, lemma_header_at, lemma_header_block_bytes_push,
    lemma_header_lookup_first, lemma_header_lookup_none, parse_header_block, read_header_block,
    wf_headers,
};
use crate::lit::{
    lit_connection_key, lit_crlf, lit_http11, lit_proxy_connection_key, spec_close_value,
    spec_connection_key, spec_crlf, spec_http11, spec_proxy_connection_key,
};
use crate::scan::{
    append_bytes, bytes_eq, find_byte, find_byte_from, find_pair, find_pair_from,
    lemma_find_byte_from, lemma_find_pair_from, pair_at, sub_vec,
};

verus! {

/// Mathematical model of a request.
#[verifier::ext_equal]
pub ghost struct ReqModel {
    pub method: Seq<u8>,
    pub path: Seq<u8>,
    pub protocol: Seq<u8>,
    pub headers: Seq<(Seq<u8>, Seq<u8>)>,
    pub body: Seq<u8>,
}

/// A request whose serialization parses back to itself: tokens without
/// spaces or line breaks, the supported protocol, well-formed headers.
pub open spec fn wf_request(m: ReqModel) -> bool {
    &&& is_token(m.method)
    &&& is_token(m.path)
    &&& m.protocol == spec_http11()
    &&& wf_headers(m.headers)
}

/// The struct for an HTTP request.
pub struct HTTPRequest {
    /// HTTP method of this request, e.g. `GET`, `POST`, `CONNECT`.
    pub method: Vec<u8>,
    /// The request-target: absolute-form toward the proxy, relative-form
    /// toward the origin.
    pub path: Vec<u8>,
    /// The protocol; only `HTTP/1.1` is supported.
    pub protocol: Vec<u8>,
    /// Headers as ordered key-value pairs; duplicates and order preserved.
    pub headers: Vec<(Vec<u8>, Vec<u8>)>,
    /// Body of the request, byte for byte.
    pub body: Vec<u8>,
}

impl View for HTTPRequest {
    type V = ReqModel;

    open spec fn view(&self) -> ReqModel {
        ReqModel {
            method: self.method@,
            path: self.path@,
            protocol: self.protocol@,
            headers: self.headers.deep_view(),
            body: self.body@,
        }
    }
}

/// Split a start line on single spaces into exactly three tokens, the third
/// of which must be `HTTP/1.1`.
pub open spec fn parse_request_line(l: Seq<u8>) -> Option<(Seq<u8>, Seq<u8>, Seq<u8>)> {
    match find_byte_from(l, 32u8, 0) {
        None => None,
        Some(i) => match find_byte_from(l, 32u8, i + 1) {
            None => None,
            Some(j) => match find_byte_from(l, 32u8, j + 1) {
                Some(_) => None,
                None => if l.subrange(j + 1, l.len() as int) == spec_http11() {
                    Some((l.subrange(0, i), l.subrange(i + 1, j), l.subrange(j + 1, l.len() as int)))
                } else {
                    None
                },
            },
        },
    }
}

/// What a request byte buffer means: the first line is the start line, the
/// following lines up to the empty line are headers, the rest is the body.
/// `None` when the header block is incomplete or any line is malformed.
pub open spec fn spec_parse_request(b: Seq<u8>) -> Option<ReqModel> {
    match find_pair_from(b, 13u8, 10u8, 0) {
        None => None,
        Some(j0) => if j0 <= 0 || j0 + 2 > b.len() {
            None
        } else {
            match parse_request_line(b.subrange(0, j0)) {
                None => None,
                Some(st) => match parse_header_block(b.subrange(j0 + 2, b.len() as int)) {
                    None => None,
                    Some((hs, body)) => Some(
                        ReqModel {
                            method: st.0,
                            path: st.1,
                            protocol: st.2,
                            headers: hs,
                            body: body,
                        },
                    ),
                },
            }
        },
    }
}

/// The headers as a request serializer emits them: every `Connection`
/// value forced to `close`, every `Proxy-Connection` header dropped.
pub open spec fn emit_req_headers(hs: Seq<(Seq<u8>, Seq<u8>)>) -> Seq<(Seq<u8>, Seq<u8>)>
    decreases hs.len(),
{
    if hs.len() == 0 {
        Seq::empty()
    } else {
        let rest = emit_req_headers(hs.drop_first());
        if hs[0].0 == spec_proxy_connection_key() {
            rest
        } else if hs[0].0 == spec_connection_key() {
            seq![(hs[0].0, spec_close_value())] + rest
        } else {
            seq![hs[0]] + rest
        }
    }
}

/// How one header comes out of the request serializer.
pub open spec fn emit_req_header_one(h: (Seq<u8>, Seq<u8>)) -> Seq<(Seq<u8>, Seq<u8>)> {
    if h.0 == spec_proxy_connection_key() {
        Seq::empty()
    } else if h.0 == spec_connection_key() {
        seq![(h.0, spec_close_value())]
    } else {
        seq![h]
    }
}

pub proof fn lemma_emit_req_headers_push(hs: Seq<(Seq<u8>, Seq<u8>)>, h: (Seq<u8>, Seq<u8>))
    ensures
        emit_req_headers(hs.push(h)) == emit_req_headers(hs) + emit_req_header_one(h),
    decreases hs.len(),
{
    if hs.len() == 0 {
        assert(hs.push(h)[0] == h);
        assert(hs.push(h).drop_first() =~= Seq::<(Seq<u8>, Seq<u8>)>::empty());
        assert(emit_req_headers(Seq::<(Seq<u8>, Seq<u8>)>::empty())
            == Seq::<(Seq<u8>, Seq<u8>)>::empty());
        assert(emit_req_headers(hs.push(h)) =~= emit_req_headers(hs) + emit_req_header_one(h));
    } else {
        assert(hs.push(h).drop_first() =~= hs.drop_first().push(h));
        assert(hs.push(h)[0] == hs[0]);
        lemma_emit_req_headers_push(hs.drop_first(), h);
        assert(emit_req_headers(hs.push(h)) =~= emit_req_headers(hs) + emit_req_header_one(h));
    }
}

/// The bytes a request serializer emits: start line, rewritten headers,
/// empty line, body.
pub open spec fn spec_build_request(m: ReqModel) -> Seq<u8> {
    m.method + seq![32u8] + m.path + seq![32u8] + m.protocol + spec_crlf() + header_block_bytes(
        emit_req_headers(m.headers),
    ) + spec_crlf() + m.body
}

/// The bytes of a request with its headers emitted verbatim, no rewrite.
pub open spec fn raw_request_bytes(m: ReqModel) -> Seq<u8> {
    m.method + seq![32u8] + m.path + seq![32u8] + m.protocol + spec_crlf() + header_block_bytes(
        m.headers,
    ) + spec_crlf() + m.body
}

impl HTTPRequest {
    /// Value of the first header named `key`, or nothing when absent.
    pub fn get_header_value<'a>(&'a self, key: &Vec<u8>) -> (r: Option<&'a Vec<u8>>)
        ensures
            match r {
                Some(v) => header_lookup(self@.headers, key@) == Some(v@),
                None => header_lookup(self@.headers, key@) == None::<Seq<u8>>,
            },
    {
        let mut i: usize = 0;
        while i < self.headers.len()
            invariant
                i <= self@.headers.len(),
                forall|k: int| 0 <= k < i ==> (#[trigger] self@.headers[k]).0 != key@,
            decreases self@.headers.len() - i,
        {
            proof {
                lemma_header_at(self.headers, i as int);
            }
            if bytes_eq(&self.headers[i].0, key) {
                proof {
                    lemma_header_lookup_first(self@.headers, key@, i as int);
                }
                return Some(&self.headers[i].1);
            }
            i = i + 1;
        }
        proof {
            lemma_header_lookup_none(self@.headers, key@);
        }
        None
    }

    /// Build the bytes of this request for sending upstream: a `Connection`
    /// header is forced to `close`, a `Proxy-Connection` header is dropped.
    pub fn build_message(&self) -> (r: Vec<u8>)
        ensures
            r@ == spec_build_request(self@),
    {
        let mut out: Vec<u8> = Vec::new();
        append_bytes(&mut out, &self.method);
        out.push(32u8);
        append_bytes(&mut out, &self.path);
        out.push(32u8);
        append_bytes(&mut out, &self.protocol);
        out.push(13u8);
        out.push(10u8);
        let ghost start = self@.method + seq![32u8] + self@.path + seq![32u8] + self@.protocol
            + spec_crlf();
        proof {
            assert(out@ =~= start);
        }
        let close_line = {
            let mut cl: Vec<u8> = Vec::new();
            cl.push(67u8);
            cl.push(111u8);
            cl.push(110u8);
            cl.push(110u8);
            cl.push(101u8);
            cl.push(99u8);
            cl.push(116u8);
            cl.push(105u8);
            cl.push(111u8);
            cl.push(110u8);
            cl.push(58u8);
            cl.push(32u8);
            cl.push(99u8);
            cl.push(108u8);
            cl.push(111u8);
            cl.push(115u8);
            cl.push(101u8);
            cl.push(13u8);
            cl.push(10u8);
            cl
        };
        proof {
            assert(close_line@ =~= spec_connection_key() + crate::lit::spec_colon_sp()
                + spec_close_value() + spec_crlf());
        }
        let conn_key = lit_connection_key();
        let pc_key = lit_proxy_connection_key();
        let mut i: usize = 0;
        while i < self.headers.len()
            invariant
                i <= self@.headers.len(),
                out@ == start + header_block_bytes(
                    emit_req_headers(self@.headers.subrange(0, i as int)),
                ),
                conn_key@ == spec_connection_key(),
                pc_key@ == spec_proxy_connection_key(),
                close_line@ == spec_connection_key() + crate::lit::spec_colon_sp()
                    + spec_close_value() + spec_crlf(),
                start == self@.method + seq![32u8] + self@.path + seq![32u8] + self@.protocol
                    + spec_crlf(),
            decreases self@.headers.len() - i,
        {
            let ghost pre = self@.headers.subrange(0, i as int);
            let ghost h = self@.headers[i as int];
            proof {
                lemma_header_at(self.headers, i as int);
            }
            if bytes_eq(&self.headers[i].0, &pc_key) {
                proof {
                    lemma_emit_req_headers_push(pre, h);
                    assert(emit_req_headers(pre.push(h)) =~= emit_req_headers(pre));
                }
            } else if bytes_eq(&self.headers[i].0, &conn_key) {
                append_bytes(&mut out, &close_line);
                proof {
                    lemma_emit_req_headers_push(pre, h);
                    lemma_header_block_bytes_push(emit_req_headers(pre), (h.0, spec_close_value()));
                    assert(emit_req_headers(pre.push(h)) =~= emit_req_headers(pre).push(
                        (h.0, spec_close_value()),
                    ));
                    assert(out@ =~= start + header_block_bytes(emit_req_headers(pre.push(h))));
                }
            } else {
                append_bytes(&mut out, &self.headers[i].0);
                let cs = crate::lit::lit_colon_sp();
                append_bytes(&mut out, &cs);
                append_bytes(&mut out, &self.headers[i].1);
                let cr = lit_crlf();
                append_bytes(&mut out, &cr);
                proof {
                    lemma_emit_req_headers_push(pre, h);
                    lemma_header_block_bytes_push(emit_req_headers(pre), h);
                    assert(emit_req_headers(pre.push(h)) =~= emit_req_headers(pre).push(h));
                    assert(out@ =~= start + header_block_bytes(emit_req_headers(pre.push(h))));
                }
            }
            proof {
                assert(pre.push(h) =~= self@.headers.subrange(0, i + 1 as int));
            }
            i = i + 1;
        }
        proof {
            assert(self@.headers.subrange(0, self@.headers.len() as int) =~= self@.headers);
        }
        out.push(13u8);
        out.push(10u8);
        append_bytes(&mut out, &self.body);
        proof {
            assert(out@ =~= spec_build_request(self@));
        }
        out
    }

    /// Parse a byte buffer as a request; nothing when the header block is
    /// incomplete or a line is malformed.
    pub fn parse_message(buf: &Vec<u8>) -> (r: Option<Self>)
        ensures
            match r {
                Some(req) => spec_parse_request(buf@) == Some(req@),
                None => spec_parse_request(buf@) == None::<ReqModel>,
            },
    {
        let n = buf.len();
        let j0 = match find_pair(buf, 13u8, 10u8, 0) {
            None => {
                return None;
            },
            Some(j) => j,
        };
        proof {
            lemma_find_pair_from(buf@, 13u8, 10u8, 0);
            assert(pair_at(buf@, 13u8, 10u8, j0 as int));
        }
        if j0 == 0 {
            return None;
        }
        let line = sub_vec(buf, 0, j0);
        let st = match Self::parse_request_line_vec(&line) {
            None => {
                return None;
            },
            Some(st) => st,
        };
        match read_header_block(buf, j0 + 2) {
            None => None,
            Some((hs, e)) => {
                let body = sub_vec(buf, e, n);
                let req = HTTPRequest {
                    method: st.0,
                    path: st.1,
                    protocol: st.2,
                    headers: hs,
                    body,
                };
                proof {
                    assert(spec_parse_request(buf@) == Some(req@));
                }
                Some(req)
            },
        }
    }

    /// Split a request start line into its three tokens.
    fn parse_request_line_vec(l: &Vec<u8>) -> (r: Option<(Vec<u8>, Vec<u8>, Vec<u8>)>)
        ensures
            match r {
                Some(st) => parse_request_line(l@) == Some((st.0@, st.1@, st.2@)),
                None => parse_request_line(l@) == None::<(Seq<u8>, Seq<u8>, Seq<u8>)>,
            },
    {
        let n = l.len();
        let i = match find_byte(l, 32u8, 0) {
            None => {
                return None;
            },
            Some(i) => i,
        };
        proof {
            lemma_find_byte_from(l@, 32u8, 0);
        }
        let j = match find_byte(l, 32u8, i + 1) {
            None => {
                return None;
            },
            Some(j) => j,
        };
        proof {
            lemma_find_byte_from(l@, 32u8, i as int + 1);
        }
        match find_byte(l, 32u8, j + 1) {
            Some(_) => {
                return None;
            },
            None => {},
        }
        let proto = sub_vec(l, j + 1, n);
        let expect = lit_http11();
        if !bytes_eq(&proto, &expect) {
            return None;
        }
        let m = sub_vec(l, 0, i);
        let t = sub_vec(l, i + 1, j);
        Some((m, t, proto))
    }
}

} // verus!
