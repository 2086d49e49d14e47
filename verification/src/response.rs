//! HTTP/1.1 responses: the structured message, parsing it out of raw bytes,
//! building the bytes sent back to a client, and the fixed 501 response.

use vstd::prelude::*;

use crate::codec::{
    dec_val, header_block_bytes, header_lookup, is_digits, lemma_header_at,
    lemma_header_block_bytes_push, lemma_header_lookup_first, lemma_header_lookup_none,
    parse_dec, parse_header_block, read_header_block, wf_headers,
};
use crate::lit::{
    lit_body_501, lit_close_value, lit_connection_key, lit_crlf, lit_http11, lit_reason_100,
    lit_reason_200, lit_reason_301, lit_reason_304, lit_reason_400, lit_reason_401,
    lit_reason_403, lit_reason_404, lit_reason_405, lit_reason_418, lit_reason_500,
    lit_reason_501, lit_reason_502, spec_body_501, spec_close_value, spec_connection_key,
    spec_crlf, spec_http11, spec_reason_100, spec_reason_200, spec_reason_301, spec_reason_304,
    spec_reason_400, spec_reason_401, spec_reason_403, spec_reason_404, spec_reason_405,
    spec_reason_418, spec_reason_500, spec_reason_501, spec_reason_502,
};
use crate::scan::{
    append_bytes, bytes_eq, find_byte, find_byte_from, find_pair, find_pair_from,
    lemma_find_byte_from, lemma_find_pair_from, pair_at, sub_vec,
};

verus! {

/// Mathematical model of a response.
#[verifier::ext_equal]
pub ghost struct RespModel {
    pub code: u32,
    pub headers: Seq<(Seq<u8>, Seq<u8>)>,
    pub body: Seq<u8>,
}

/// The status codes whose reason phrase the serializer knows. Emitting any
/// other code is a programming error and is ruled out by precondition.
pub open spec fn is_supported_status(code: u32) -> bool {
    ||| code == 100
    ||| code == 200
    ||| code == 301
    ||| code == 304
    ||| code == 400
    ||| code == 401
    ||| code == 403
    ||| code == 404
    ||| code == 405
    ||| code == 418
    ||| code == 500
    ||| code == 501
    ||| code == 502
}

/// The status line text after `HTTP/1.1 `, code and phrase together.
pub open spec fn spec_reason_of(code: u32) -> Seq<u8> {
    if code == 100 {
        spec_reason_100()
    } else if code == 200 {
        spec_reason_200()
    } else if code == 301 {
        spec_reason_301()
    } else if code == 304 {
        spec_reason_304()
    } else if code == 400 {
        spec_reason_400()
    } else if code == 401 {
        spec_reason_401()
    } else if code == 403 {
        spec_reason_403()
    } else if code == 404 {
        spec_reason_404()
    } else if code == 405 {
        spec_reason_405()
    } else if code == 418 {
        spec_reason_418()
    } else if code == 500 {
        spec_reason_500()
    } else if code == 501 {
        spec_reason_501()
    } else if code == 502 {
        spec_reason_502()
    } else {
        Seq::empty()
    }
}

/// Read a status line: it must start with `HTTP/1.1 `, and the following
/// space-delimited token must be a nonzero decimal status code.
pub open spec fn parse_status_line(l: Seq<u8>) -> Option<u32> {
    match find_byte_from(l, 32u8, 0) {
        None => None,
        Some(i) => if l.subrange(0, i) != spec_http11() {
            None
        } else {
            let t_end = match find_byte_from(l, 32u8, i + 1) {
                None => l.len() as int,
                Some(j) => j,
            };
            let tok = l.subrange(i + 1, t_end);
            if tok.len() > 0 && is_digits(tok) && dec_val(tok) <= u32::MAX as nat && dec_val(tok)
                != 0 {
                Some(dec_val(tok) as u32)
            } else {
                None
            }
        },
    }
}

/// What a response byte buffer means, in the same shape as a request.
pub open spec fn spec_parse_response(b: Seq<u8>) -> Option<RespModel> {
    match find_pair_from(b, 13u8, 10u8, 0) {
        None => None,
        Some(j0) => if j0 <= 0 || j0 + 2 > b.len() {
            None
        } else {
            match parse_status_line(b.subrange(0, j0)) {
                None => None,
                Some(code) => match parse_header_block(b.subrange(j0 + 2, b.len() as int)) {
                    None => None,
                    Some((hs, body)) => Some(RespModel { code, headers: hs, body }),
                },
            }
        },
    }
}

/// The headers as the response serializer emits them: every `Connection`
/// value forced to `close`, everything else verbatim.
pub open spec fn emit_resp_headers(hs: Seq<(Seq<u8>, Seq<u8>)>) -> Seq<(Seq<u8>, Seq<u8>)>
    decreases hs.len(),
{
    if hs.len() == 0 {
        Seq::empty()
    } else {
        let rest = emit_resp_headers(hs.drop_first());
        if hs[0].0 == spec_connection_key() {
            seq![(hs[0].0, spec_close_value())] + rest
        } else {
            seq![hs[0]] + rest
        }
    }
}

/// How one header comes out of the response serializer.
pub open spec fn emit_resp_header_one(h: (Seq<u8>, Seq<u8>)) -> (Seq<u8>, Seq<u8>) {
    if h.0 == spec_connection_key() {
        (h.0, spec_close_value())
    } else {
        h
    }
}

pub proof fn lemma_emit_resp_headers_push(hs: Seq<(Seq<u8>, Seq<u8>)>, h: (Seq<u8>, Seq<u8>))
    ensures
        emit_resp_headers(hs.push(h)) == emit_resp_headers(hs).push(emit_resp_header_one(h)),
    decreases hs.len(),
{
    if hs.len() == 0 {
        assert(hs.push(h)[0] == h);
        assert(hs.push(h).drop_first() =~= Seq::<(Seq<u8>, Seq<u8>)>::empty());
        assert(emit_resp_headers(Seq::<(Seq<u8>, Seq<u8>)>::empty())
            == Seq::<(Seq<u8>, Seq<u8>)>::empty());
        assert(emit_resp_headers(hs.push(h)) =~= emit_resp_headers(hs).push(
            emit_resp_header_one(h),
        ));
    } else {
        assert(hs.push(h).drop_first() =~= hs.drop_first().push(h));
        assert(hs.push(h)[0] == hs[0]);
        lemma_emit_resp_headers_push(hs.drop_first(), h);
        assert(emit_resp_headers(hs.push(h)) =~= emit_resp_headers(hs).push(
            emit_resp_header_one(h),
        ));
    }
}

/// The bytes a response serializer emits: status line, rewritten headers,
/// empty line, body.
pub open spec fn spec_build_response(m: RespModel) -> Seq<u8> {
    spec_http11() + seq![32u8] + spec_reason_of(m.code) + spec_crlf() + header_block_bytes(
        emit_resp_headers(m.headers),
    ) + spec_crlf() + m.body
}

/// The struct for an HTTP response.
pub struct HTTPResponse {
    /// Status code of the response.
    pub status_code: u32,
    /// Headers as ordered key-value pairs; duplicates and order preserved.
    pub headers: Vec<(Vec<u8>, Vec<u8>)>,
    /// Body of the response, byte for byte.
    pub body: Vec<u8>,
}

impl View for HTTPResponse {
    type V = RespModel;

    open spec fn view(&self) -> RespModel {
        RespModel {
            code: self.status_code,
            headers: self.headers.deep_view(),
            body: self.body@,
        }
    }
}

impl HTTPResponse {
    /// Value of the first header named `key`, or nothing when absent.
    pub fn get_header_value<'a>(&'a self, key: &Vec<u8>) -> (r: Option<&'a Vec<u8>>)
        ensures
            match r {
                Some(v) => header_lookup(self@.headers, key@) == Some(v@),
                None => header_lookup(self@.headers, key@) == None::<Seq<u8>>,
            },
    {
        let mut i: usize = 0;
        while i < self.headers.len()
            invariant
                i <= self@.headers.len(),
                forall|k: int| 0 <= k < i ==> (#[trigger] self@.headers[k]).0 != key@,
            decreases self@.headers.len() - i,
        {
            proof {
                lemma_header_at(self.headers, i as int);
            }
            if bytes_eq(&self.headers[i].0, key) {
                proof {
                    lemma_header_lookup_first(self@.headers, key@, i as int);
                }
                return Some(&self.headers[i].1);
            }
            i = i + 1;
        }
        proof {
            lemma_header_lookup_none(self@.headers, key@);
        }
        None
    }

    /// The status line text for this response's code.
    fn get_status_description(&self) -> (r: Vec<u8>)
        requires
            is_supported_status(self@.code),
        ensures
            r@ == spec_reason_of(self@.code),
    {
        if self.status_code == 100 {
            lit_reason_100()
        } else if self.status_code == 200 {
            lit_reason_200()
        } else if self.status_code == 301 {
            lit_reason_301()
        } else if self.status_code == 304 {
            lit_reason_304()
        } else if self.status_code == 400 {
            lit_reason_400()
        } else if self.status_code == 401 {
            lit_reason_401()
        } else if self.status_code == 403 {
            lit_reason_403()
        } else if self.status_code == 404 {
            lit_reason_404()
        } else if self.status_code == 405 {
            lit_reason_405()
        } else if self.status_code == 418 {
            lit_reason_418()
        } else if self.status_code == 500 {
            lit_reason_500()
        } else if self.status_code == 501 {
            lit_reason_501()
        } else {
            lit_reason_502()
        }
    }

    /// Build the bytes of this response for sending to the client: a
    /// `Connection` header is forced to `close`.
    pub fn build_message(&self) -> (r: Vec<u8>)
        requires
            is_supported_status(self@.code),
        ensures
            r@ == spec_build_response(self@),
    {
        let mut out: Vec<u8> = Vec::new();
        let proto = lit_http11();
        append_bytes(&mut out, &proto);
        out.push(32u8);
        let reason = self.get_status_description();
        append_bytes(&mut out, &reason);
        out.push(13u8);
        out.push(10u8);
        let ghost start = spec_http11() + seq![32u8] + spec_reason_of(self@.code) + spec_crlf();
        proof {
            assert(out@ =~= start);
        }
        let close_value = lit_close_value();
        let conn_key = lit_connection_key();
        let mut i: usize = 0;
        while i < self.headers.len()
            invariant
                i <= self@.headers.len(),
                out@ == start + header_block_bytes(
                    emit_resp_headers(self@.headers.subrange(0, i as int)),
                ),
                conn_key@ == spec_connection_key(),
                close_value@ == spec_close_value(),
                start == spec_http11() + seq![32u8] + spec_reason_of(self@.code) + spec_crlf(),
            decreases self@.headers.len() - i,
        {
            let ghost pre = self@.headers.subrange(0, i as int);
            let ghost h = self@.headers[i as int];
            proof {
                lemma_header_at(self.headers, i as int);
            }
            append_bytes(&mut out, &self.headers[i].0);
            let cs = crate::lit::lit_colon_sp();
            append_bytes(&mut out, &cs);
            if bytes_eq(&self.headers[i].0, &conn_key) {
                append_bytes(&mut out, &close_value);
            } else {
                append_bytes(&mut out, &self.headers[i].1);
            }
            let cr = lit_crlf();
            append_bytes(&mut out, &cr);
            proof {
                lemma_emit_resp_headers_push(pre, h);
                lemma_header_block_bytes_push(emit_resp_headers(pre), emit_resp_header_one(h));
                assert(out@ =~= start + header_block_bytes(emit_resp_headers(pre.push(h))));
                assert(pre.push(h) =~= self@.headers.subrange(0, i + 1 as int));
            }
            i = i + 1;
        }
        proof {
            assert(self@.headers.subrange(0, self@.headers.len() as int) =~= self@.headers);
        }
        out.push(13u8);
        out.push(10u8);
        append_bytes(&mut out, &self.body);
        proof {
            assert(out@ =~= spec_build_response(self@));
        }
        out
    }

    /// The fixed `501 Not Implemented` response: one `Connection: close`
    /// header and the bit-exact HTML body.
    pub fn create_501_error() -> (r: Self)
        ensures
            r@.code == 501,
            r@.headers == seq![(spec_connection_key(), spec_close_value())],
            r@.body == spec_body_501(),
    {
        let mut headers: Vec<(Vec<u8>, Vec<u8>)> = Vec::new();
        headers.push((lit_connection_key(), lit_close_value()));
        let r = HTTPResponse { status_code: 501, headers, body: lit_body_501() };
        proof {
            assert(r@.headers =~~= seq![(spec_connection_key(), spec_close_value())]);
        }
        r
    }

    /// Parse a byte buffer as a response; nothing when the header block is
    /// incomplete, a line is malformed, or the status line is not an
    /// `HTTP/1.1` line with a nonzero numeric code.
    pub fn parse_message(buf: &Vec<u8>) -> (r: Option<Self>)
        ensures
            match r {
                Some(resp) => spec_parse_response(buf@) == Some(resp@),
                None => spec_parse_response(buf@) == None::<RespModel>,
            },
    {
        let n = buf.len();
        let j0 = match find_pair(buf, 13u8, 10u8, 0) {
            None => {
                return None;
            },
            Some(j) => j,
        };
        proof {
            lemma_find_pair_from(buf@, 13u8, 10u8, 0);
            assert(pair_at(buf@, 13u8, 10u8, j0 as int));
        }
        if j0 == 0 {
            return None;
        }
        let line = sub_vec(buf, 0, j0);
        let code = match Self::parse_status_line_vec(&line) {
            None => {
                return None;
            },
            Some(code) => code,
        };
        match read_header_block(buf, j0 + 2) {
            None => None,
            Some((hs, e)) => {
                let body = sub_vec(buf, e, n);
                let resp = HTTPResponse { status_code: code, headers: hs, body };
                proof {
                    assert(spec_parse_response(buf@) == Some(resp@));
                }
                Some(resp)
            },
        }
    }

    /// Read the status code out of a status line.
    fn parse_status_line_vec(l: &Vec<u8>) -> (r: Option<u32>)
        ensures
            match r {
                Some(code) => parse_status_line(l@) == Some(code),
                None => parse_status_line(l@) == None::<u32>,
            },
    {
        let n = l.len();
        let i = match find_byte(l, 32u8, 0) {
            None => {
                return None;
            },
            Some(i) => i,
        };
        proof {
            lemma_find_byte_from(l@, 32u8, 0);
        }
        let tok0 = sub_vec(l, 0, i);
        let expect = lit_http11();
        if !bytes_eq(&tok0, &expect) {
            return None;
        }
        let t_end = match find_byte(l, 32u8, i + 1) {
            None => n,
            Some(j) => {
                proof {
                    lemma_find_byte_from(l@, 32u8, i as int + 1);
                }
                j
            },
        };
        let tok = sub_vec(l, i + 1, t_end);
        match parse_dec(&tok) {
            None => {
                proof {
                    assert(u32::MAX as nat <= usize::MAX as nat);
                }
                None
            },
            Some(v) => {
                if v == 0 || v > u32::MAX as usize {
                    None
                } else {
                    Some(v as u32)
                }
            },
        }
    }
}

} // verus!
