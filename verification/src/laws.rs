//! The codec's round-trip and framing laws: what parsing makes of the bytes
//! the serializers produce, and what the framing loops return over a whole
//! delivery.

use vstd::prelude::*;

use crate::codec::{
    dec_val, header_block_bytes, header_line_bytes, is_digits, is_token,
    lemma_header_block_round_trip, lemma_first_crlf_after_line, no_crlf_bytes, parse_header_block,
    parse_header_line, wf_header, wf_headers,
};
use crate::lit::{
    spec_close_value, spec_crlf, spec_http11, spec_reason_100, spec_reason_200, spec_reason_301,
    spec_reason_304, spec_reason_400, spec_reason_401, spec_reason_403, spec_reason_404,
    spec_reason_405, spec_reason_418, spec_reason_500, spec_reason_501, spec_reason_502,
};
use crate::request::{
    emit_req_headers, parse_request_line, raw_request_bytes, spec_build_request,
    spec_parse_request, wf_request, ReqModel,
};
use crate::frame::{
    concat_from, content_length_of, frame_request_from, frame_response_from,
    lemma_concat_from_split, length_matches, request_frame_spec, response_ready_spec,
};
use crate::response::{
    emit_resp_headers, is_supported_status, parse_status_line, spec_build_response,
    spec_parse_response, spec_reason_of, RespModel,
};
use crate::scan::{
    find_byte_from, find_pair_from, lemma_find_byte_from, lemma_find_byte_from_is,
    lemma_find_byte_from_is_none, lemma_find_pair_from, lemma_find_pair_from_is, pair_at,
};

verus! {

/// The protocol token has no space and no line break.
pub proof fn lemma_http11_clean()
    ensures
        is_token(spec_http11()),
        no_crlf_bytes(spec_http11()),
{
    let s = spec_http11();
    assert(s.len() == 8);
    assert forall|i: int| 0 <= i < s.len() implies s[i] != 32u8 && s[i] != 13u8 && s[i]
        != 10u8 by {
        assert(s[0] == 72u8);
        assert(s[1] == 84u8);
        assert(s[2] == 84u8);
        assert(s[3] == 80u8);
        assert(s[4] == 47u8);
        assert(s[5] == 49u8);
        assert(s[6] == 46u8);
        assert(s[7] == 49u8);
    }
}

/// The forced `close` value has no line break.
pub proof fn lemma_close_clean()
    ensures
        no_crlf_bytes(spec_close_value()),
{
    let s = spec_close_value();
    assert(s.len() == 5);
    assert forall|i: int| 0 <= i < s.len() implies s[i] != 13u8 && s[i] != 10u8 by {
        assert(s[0] == 99u8);
        assert(s[1] == 108u8);
        assert(s[2] == 111u8);
        assert(s[3] == 115u8);
        assert(s[4] == 101u8);
    }
}

/// The request serializer's header rewrite keeps headers well-formed.
pub proof fn lemma_emit_req_wf(hs: Seq<(Seq<u8>, Seq<u8>)>)
    requires
        wf_headers(hs),
    ensures
        wf_headers(emit_req_headers(hs)),
    decreases hs.len(),
{
    if hs.len() > 0 {
        assert(wf_headers(hs.drop_first()));
        lemma_emit_req_wf(hs.drop_first());
        lemma_close_clean();
        let e = emit_req_headers(hs);
        let rest = emit_req_headers(hs.drop_first());
        assert(wf_header(hs[0]));
        assert forall|i: int| 0 <= i < e.len() implies wf_header(#[trigger] e[i]) by {
            if e.len() == rest.len() {
                assert(e[i] == rest[i]);
            } else {
                if i == 0 {
                    assert(wf_header(e[0]));
                } else {
                    assert(e[i] == rest[i - 1]);
                }
            }
        }
    }
}

/// A start line built out of two tokens and the protocol splits back into
/// exactly those three.
pub proof fn lemma_request_line_round_trip(m: Seq<u8>, t: Seq<u8>)
    requires
        is_token(m),
        is_token(t),
    ensures
        parse_request_line(m + seq![32u8] + t + seq![32u8] + spec_http11()) == Some(
            (m, t, spec_http11()),
        ),
{
    lemma_http11_clean();
    let l = m + seq![32u8] + t + seq![32u8] + spec_http11();
    let i = m.len() as int;
    let j = m.len() + 1 + t.len() as int;
    assert(l[i] == 32u8);
    assert(l[j] == 32u8);
    assert forall|k: int| 0 <= k < i implies l[k] != 32u8 by {
        assert(l[k] == m[k]);
    }
    lemma_find_byte_from_is(l, 32u8, 0, i);
    assert forall|k: int| i + 1 <= k < j implies l[k] != 32u8 by {
        assert(l[k] == t[k - i - 1]);
    }
    lemma_find_byte_from_is(l, 32u8, i + 1, j);
    assert forall|k: int| j + 1 <= k < l.len() implies l[k] != 32u8 by {
        assert(l[k] == spec_http11()[k - j - 1]);
    }
    lemma_find_byte_from_is_none(l, 32u8, j + 1);
    assert(l.subrange(0, i) =~= m);
    assert(l.subrange(i + 1, j) =~= t);
    assert(l.subrange(j + 1, l.len() as int) =~= spec_http11());
}

/// Parsing the bytes the request serializer produced returns the same
/// message, with the headers as the serializer rewrote them: every
/// `Connection` value `close`, no `Proxy-Connection`, everything else and
/// the order untouched.
pub proof fn lemma_request_round_trip(m: ReqModel)
    requires
        wf_request(m),
    ensures
        spec_parse_request(spec_build_request(m)) == Some(
            ReqModel { headers: emit_req_headers(m.headers), ..m },
        ),
{
    lemma_http11_clean();
    let l0 = m.method + seq![32u8] + m.path + seq![32u8] + m.protocol;
    let eh = emit_req_headers(m.headers);
    let rest = header_block_bytes(eh) + spec_crlf() + m.body;
    let b = spec_build_request(m);
    assert(b =~= l0 + spec_crlf() + rest);
    assert(no_crlf_bytes(l0)) by {
        assert forall|k: int| 0 <= k < l0.len() implies l0[k] != 13u8 && l0[k] != 10u8 by {
            if k < m.method.len() {
                assert(l0[k] == m.method[k]);
            } else if k == m.method.len() {
                assert(l0[k] == 32u8);
            } else if k < m.method.len() + 1 + m.path.len() {
                assert(l0[k] == m.path[k - m.method.len() - 1]);
            } else if k == m.method.len() + 1 + m.path.len() {
                assert(l0[k] == 32u8);
            } else {
                assert(l0[k] == m.protocol[k - m.method.len() - 2 - m.path.len()]);
            }
        }
    }
    lemma_first_crlf_after_line(l0, rest);
    let j0 = l0.len() as int;
    assert(find_pair_from(b, 13u8, 10u8, 0) == Some(j0));
    assert(j0 > 0);
    assert(j0 + 2 <= b.len());
    assert(b.subrange(0, j0) == l0);
    lemma_request_line_round_trip(m.method, m.path);
    assert(parse_request_line(l0) == Some((m.method, m.path, m.protocol)));
    lemma_emit_req_wf(m.headers);
    lemma_header_block_round_trip(eh, m.body);
    assert(b.subrange(j0 + 2, b.len() as int) == rest);
    assert(parse_header_block(rest) == Some((eh, m.body)));
    assert(spec_parse_request(b) == Some(ReqModel { headers: eh, ..m }));
}

/// The exact round trip: a request whose headers the serializer would not
/// change parses back equal, field for field.
pub proof fn lemma_request_round_trip_exact(m: ReqModel)
    requires
        wf_request(m),
        emit_req_headers(m.headers) == m.headers,
    ensures
        spec_parse_request(spec_build_request(m)) == Some(m),
{
    lemma_request_round_trip(m);
    assert(ReqModel { headers: emit_req_headers(m.headers), ..m } =~= m);
}


/// The response serializer's header rewrite keeps headers well-formed.
pub proof fn lemma_emit_resp_wf(hs: Seq<(Seq<u8>, Seq<u8>)>)
    requires
        wf_headers(hs),
    ensures
        wf_headers(emit_resp_headers(hs)),
    decreases hs.len(),
{
    if hs.len() > 0 {
        assert(wf_headers(hs.drop_first()));
        lemma_emit_resp_wf(hs.drop_first());
        lemma_close_clean();
        let e = emit_resp_headers(hs);
        let rest = emit_resp_headers(hs.drop_first());
        assert(wf_header(hs[0]));
        assert forall|i: int| 0 <= i < e.len() implies wf_header(#[trigger] e[i]) by {
            if i == 0 {
                assert(wf_header(e[0]));
            } else {
                assert(e[i] == rest[i - 1]);
            }
        }
    }
}

/// A status line built out of a supported code's reason text parses back to
/// that code.
pub proof fn lemma_status_line_round_trip(code: u32)
    requires
        is_supported_status(code),
    ensures
        parse_status_line(spec_http11() + seq![32u8] + spec_reason_of(code)) == Some(code),
{
    lemma_http11_clean();
    lemma_reason_facts(code);
    let r = spec_reason_of(code);
    let l = spec_http11() + seq![32u8] + r;
    assert(l[8] == 32u8);
    assert forall|k: int| 0 <= k < 8 implies l[k] != 32u8 by {
        assert(l[k] == spec_http11()[k]);
    }
    lemma_find_byte_from_is(l, 32u8, 0, 8);
    assert(l.subrange(0, 8) =~= spec_http11());
    let d = r.subrange(0, 3);
    assert forall|k: int| 9 <= k < 12 implies l[k] != 32u8 by {
        assert(l[k] == r[k - 9]);
        assert(r[k - 9] == d[k - 9]);
        assert(48u8 <= d[k - 9] <= 57u8);
    }
    assert(l[12] == r[3]);
    lemma_find_byte_from_is(l, 32u8, 9, 12);
    assert(l.subrange(9, 12) =~= d);
    assert(dec_val(d) == code);
    assert(code != 0 && code as nat <= u32::MAX as nat);
    assert(parse_status_line(l) == Some(code));
}

/// Parsing the bytes the response serializer produced returns the same
/// message, with the headers as the serializer rewrote them: every
/// `Connection` value `close`, everything else and the order untouched.
pub proof fn lemma_response_round_trip(m: RespModel)
    requires
        wf_headers(m.headers),
        is_supported_status(m.code),
    ensures
        spec_parse_response(spec_build_response(m)) == Some(
            RespModel { headers: emit_resp_headers(m.headers), ..m },
        ),
{
    lemma_http11_clean();
    lemma_reason_facts(m.code);
    let l0 = spec_http11() + seq![32u8] + spec_reason_of(m.code);
    let eh = emit_resp_headers(m.headers);
    let rest = header_block_bytes(eh) + spec_crlf() + m.body;
    let b = spec_build_response(m);
    assert(b =~= l0 + spec_crlf() + rest);
    assert(no_crlf_bytes(l0)) by {
        assert forall|k: int| 0 <= k < l0.len() implies l0[k] != 13u8 && l0[k] != 10u8 by {
            if k < 8 {
                assert(l0[k] == spec_http11()[k]);
            } else if k == 8 {
                assert(l0[k] == 32u8);
            } else {
                assert(l0[k] == spec_reason_of(m.code)[k - 9]);
            }
        }
    }
    lemma_first_crlf_after_line(l0, rest);
    let j0 = l0.len() as int;
    assert(find_pair_from(b, 13u8, 10u8, 0) == Some(j0));
    assert(j0 > 0);
    assert(j0 + 2 <= b.len());
    assert(b.subrange(0, j0) == l0);
    lemma_status_line_round_trip(m.code);
    lemma_emit_resp_wf(m.headers);
    lemma_header_block_round_trip(eh, m.body);
    assert(b.subrange(j0 + 2, b.len() as int) == rest);
    assert(parse_header_block(rest) == Some((eh, m.body)));
    assert(spec_parse_response(b) == Some(RespModel { headers: eh, ..m }));
}

/// The exact round trip: a response whose headers the serializer would not
/// change parses back equal, field for field.
pub proof fn lemma_response_round_trip_exact(m: RespModel)
    requires
        wf_headers(m.headers),
        is_supported_status(m.code),
        emit_resp_headers(m.headers) == m.headers,
    ensures
        spec_parse_response(spec_build_response(m)) == Some(m),
{
    lemma_response_round_trip(m);
    assert(RespModel { headers: emit_resp_headers(m.headers), ..m } =~= m);
}

/// The first match survives appending more bytes.
pub proof fn lemma_find_pair_extend(b: Seq<u8>, e: Seq<u8>, x: u8, y: u8)
    ensures
        match find_pair_from(b, x, y, 0) {
            None => true,
            Some(j) => find_pair_from(b + e, x, y, 0) == Some(j),
        },
{
    lemma_find_pair_from(b, x, y, 0);
    match find_pair_from(b, x, y, 0) {
        None => {},
        Some(j) => {
            assert(pair_at(b + e, x, y, j)) by {
                assert((b + e)[j] == b[j]);
                assert((b + e)[j + 1] == b[j + 1]);
            }
            assert forall|k: int| 0 <= k < j implies !pair_at(b + e, x, y, k) by {
                assert((b + e)[k] == b[k]);
                assert((b + e)[k + 1] == b[k + 1]);
                assert(!pair_at(b, x, y, k));
            }
            lemma_find_pair_from_is(b + e, x, y, 0, j);
        },
    }
}

/// A parsed header block is unchanged by appending bytes: they land after
/// the empty line, in the rest.
pub proof fn lemma_header_block_extend(b: Seq<u8>, e: Seq<u8>)
    ensures
        match parse_header_block(b) {
            None => true,
            Some(p) => parse_header_block(b + e) == Some((p.0, p.1 + e)),
        },
    decreases b.len(),
{
    lemma_find_pair_extend(b, e, 13u8, 10u8);
    lemma_find_pair_from(b, 13u8, 10u8, 0);
    match find_pair_from(b, 13u8, 10u8, 0) {
        None => {},
        Some(j) => {
            assert(pair_at(b, 13u8, 10u8, j));
            if j == 0 {
                assert((b + e).subrange(2, (b + e).len() as int) =~= b.subrange(
                    2,
                    b.len() as int,
                ) + e);
            } else {
                assert((b + e).subrange(0, j) =~= b.subrange(0, j));
                match parse_header_line(b.subrange(0, j)) {
                    None => {},
                    Some(h) => {
                        let b2 = b.subrange(j + 2, b.len() as int);
                        assert((b + e).subrange(j + 2, (b + e).len() as int) =~= b2 + e);
                        lemma_header_block_extend(b2, e);
                        match parse_header_block(b2) {
                            None => {},
                            Some(p) => {},
                        }
                    },
                }
            }
        },
    }
}

/// A parsed request is unchanged by appending bytes, except that they join
/// the body.
pub proof fn lemma_parse_request_extend(b: Seq<u8>, e: Seq<u8>)
    ensures
        match spec_parse_request(b) {
            None => true,
            Some(m) => spec_parse_request(b + e) == Some(ReqModel { body: m.body + e, ..m }),
        },
{
    lemma_find_pair_extend(b, e, 13u8, 10u8);
    lemma_find_pair_from(b, 13u8, 10u8, 0);
    match find_pair_from(b, 13u8, 10u8, 0) {
        None => {},
        Some(j0) => {
            if !(j0 <= 0 || j0 + 2 > b.len()) {
                assert(pair_at(b, 13u8, 10u8, j0));
                assert((b + e).subrange(0, j0) =~= b.subrange(0, j0));
                match parse_request_line(b.subrange(0, j0)) {
                    None => {},
                    Some(st) => {
                        let b2 = b.subrange(j0 + 2, b.len() as int);
                        assert((b + e).subrange(j0 + 2, (b + e).len() as int) =~= b2 + e);
                        lemma_header_block_extend(b2, e);
                    },
                }
            }
        },
    }
}

/// A parsed response is unchanged by appending bytes, except that they join
/// the body.
pub proof fn lemma_parse_response_extend(b: Seq<u8>, e: Seq<u8>)
    ensures
        match spec_parse_response(b) {
            None => true,
            Some(m) => spec_parse_response(b + e) == Some(RespModel { body: m.body + e, ..m }),
        },
{
    lemma_find_pair_extend(b, e, 13u8, 10u8);
    lemma_find_pair_from(b, 13u8, 10u8, 0);
    match find_pair_from(b, 13u8, 10u8, 0) {
        None => {},
        Some(j0) => {
            if !(j0 <= 0 || j0 + 2 > b.len()) {
                assert(pair_at(b, 13u8, 10u8, j0));
                assert((b + e).subrange(0, j0) =~= b.subrange(0, j0));
                match parse_status_line(b.subrange(0, j0)) {
                    None => {},
                    Some(code) => {
                        let b2 = b.subrange(j0 + 2, b.len() as int);
                        assert((b + e).subrange(j0 + 2, (b + e).len() as int) =~= b2 + e);
                        lemma_header_block_extend(b2, e);
                    },
                }
            }
        },
    }
}

/// A request whose declared `Content-Length` exceeds everything the stream
/// ever delivered (or does not read as a number) is never framed: the loop
/// returns no message.
pub proof fn lemma_frame_request_needs_full_body(
    buf: Seq<u8>,
    chunks: Seq<Seq<u8>>,
    m: ReqModel,
    v: Seq<u8>,
)
    requires
        spec_parse_request(concat_from(buf, chunks)) == Some(m),
        content_length_of(m.headers) == Some(v),
        v.len() == 0 || !is_digits(v) || dec_val(v) > m.body.len(),
    ensures
        frame_request_from(buf, chunks) == None::<ReqModel>,
    decreases chunks.len(),
{
    if chunks.len() == 0 {
        assert(!length_matches(v, m.body));
    } else {
        let b2 = buf + chunks[0];
        let rest = chunks.drop_first();
        let k = concat_from(Seq::empty(), rest);
        lemma_concat_from_split(b2, rest);
        assert(concat_from(buf, chunks) == b2 + k);
        match spec_parse_request(b2) {
            None => {
                assert(request_frame_spec(b2) == None::<ReqModel>);
            },
            Some(m2) => {
                lemma_parse_request_extend(b2, k);
                assert(spec_parse_request(b2 + k) == Some(ReqModel { body: m2.body + k, ..m2 }));
                assert(m.headers == m2.headers);
                assert(m.body == m2.body + k);
                assert(m2.body.len() <= m.body.len());
                assert(content_length_of(m2.headers) == Some(v));
                assert(!length_matches(v, m2.body));
                assert(request_frame_spec(b2) == None::<ReqModel>);
            },
        }
        lemma_frame_request_needs_full_body(b2, rest, m, v);
    }
}

/// A response without `Content-Length` is delimited by close: the loop
/// returns exactly the parse of everything delivered, whose body is all
/// bytes after the header block.
pub proof fn lemma_frame_response_close_delimited(
    buf: Seq<u8>,
    chunks: Seq<Seq<u8>>,
    m: RespModel,
)
    requires
        spec_parse_response(concat_from(buf, chunks)) == Some(m),
        content_length_of(m.headers) == None::<Seq<u8>>,
    ensures
        frame_response_from(buf, chunks) == Some(m),
    decreases chunks.len(),
{
    if chunks.len() == 0 {
    } else {
        let b2 = buf + chunks[0];
        let rest = chunks.drop_first();
        let k = concat_from(Seq::empty(), rest);
        lemma_concat_from_split(b2, rest);
        assert(concat_from(buf, chunks) == b2 + k);
        match spec_parse_response(b2) {
            None => {
                assert(response_ready_spec(b2) == None::<RespModel>);
            },
            Some(m2) => {
                lemma_parse_response_extend(b2, k);
                assert(spec_parse_response(b2 + k) == Some(RespModel { body: m2.body + k, ..m2 }));
                assert(m.headers == m2.headers);
                assert(content_length_of(m2.headers) == None::<Seq<u8>>);
                assert(response_ready_spec(b2) == None::<RespModel>);
            },
        }
        lemma_frame_response_close_delimited(b2, rest, m);
    }
}

/// A header line that parses is its parse, reassembled.
pub proof fn lemma_header_line_section(l: Seq<u8>)
    ensures
        match parse_header_line(l) {
            None => true,
            Some(h) => header_line_bytes(h) == l + spec_crlf(),
        },
{
    lemma_find_pair_from(l, 58u8, 32u8, 0);
    match find_pair_from(l, 58u8, 32u8, 0) {
        None => {},
        Some(i) => {
            let h = (l.subrange(0, i), l.subrange(i + 2, l.len() as int));
            assert(l[i] == 58u8 && l[i + 1] == 32u8);
            assert(header_line_bytes(h) =~= l + spec_crlf());
        },
    }
}

/// A header block that parses is its parse, reassembled, followed by the
/// untouched rest.
pub proof fn lemma_header_block_section(b: Seq<u8>)
    ensures
        match parse_header_block(b) {
            None => true,
            Some(p) => header_block_bytes(p.0) + spec_crlf() + p.1 == b,
        },
    decreases b.len(),
{
    lemma_find_pair_from(b, 13u8, 10u8, 0);
    match find_pair_from(b, 13u8, 10u8, 0) {
        None => {},
        Some(j) => {
            assert(pair_at(b, 13u8, 10u8, j));
            if j == 0 {
                assert(header_block_bytes(Seq::<(Seq<u8>, Seq<u8>)>::empty())
                    == Seq::<u8>::empty());
                assert(header_block_bytes(Seq::<(Seq<u8>, Seq<u8>)>::empty()) + spec_crlf()
                    + b.subrange(2, b.len() as int) =~= b);
            } else {
                let line = b.subrange(0, j);
                lemma_header_line_section(line);
                match parse_header_line(line) {
                    None => {},
                    Some(h) => {
                        let b2 = b.subrange(j + 2, b.len() as int);
                        lemma_header_block_section(b2);
                        match parse_header_block(b2) {
                            None => {},
                            Some(p) => {
                                let hs = seq![h] + p.0;
                                assert(hs[0] == h);
                                assert(hs.drop_first() =~= p.0);
                                assert(header_block_bytes(hs) == header_line_bytes(h)
                                    + header_block_bytes(p.0));
                                assert(header_block_bytes(hs) + spec_crlf() + p.1
                                    =~= header_line_bytes(h) + (header_block_bytes(p.0)
                                    + spec_crlf() + p.1));
                                assert(header_line_bytes(h) + (header_block_bytes(p.0)
                                    + spec_crlf() + p.1) == (line + spec_crlf()) + b2);
                                assert((line + spec_crlf()) + b2 =~= b);
                            },
                        }
                    },
                }
            }
        },
    }
}

/// A start line that parses is its three tokens, reassembled.
pub proof fn lemma_request_line_section(l: Seq<u8>)
    ensures
        match parse_request_line(l) {
            None => true,
            Some(st) => st.0 + seq![32u8] + st.1 + seq![32u8] + st.2 == l && st.2
                == spec_http11(),
        },
{
    lemma_find_byte_from(l, 32u8, 0);
    match find_byte_from(l, 32u8, 0) {
        None => {},
        Some(i) => {
            lemma_find_byte_from(l, 32u8, i + 1);
            match find_byte_from(l, 32u8, i + 1) {
                None => {},
                Some(j) => {
                    match find_byte_from(l, 32u8, j + 1) {
                        Some(_) => {},
                        None => {
                            if l.subrange(j + 1, l.len() as int) == spec_http11() {
                                assert(l[i] == 32u8 && l[j] == 32u8);
                                assert(l.subrange(0, i) + seq![32u8] + l.subrange(i + 1, j)
                                    + seq![32u8] + l.subrange(j + 1, l.len() as int) =~= l);
                            }
                        },
                    }
                },
            }
        },
    }
}

/// A request byte buffer that parses is the parse, serialized back with its
/// headers verbatim: parsing is a section of raw serialization.
pub proof fn lemma_parse_request_section(b: Seq<u8>)
    ensures
        match spec_parse_request(b) {
            None => true,
            Some(m) => raw_request_bytes(m) == b,
        },
{
    lemma_find_pair_from(b, 13u8, 10u8, 0);
    match find_pair_from(b, 13u8, 10u8, 0) {
        None => {},
        Some(j0) => {
            if !(j0 <= 0 || j0 + 2 > b.len()) {
                assert(pair_at(b, 13u8, 10u8, j0));
                let l0 = b.subrange(0, j0);
                lemma_request_line_section(l0);
                match parse_request_line(l0) {
                    None => {},
                    Some(st) => {
                        let b2 = b.subrange(j0 + 2, b.len() as int);
                        lemma_header_block_section(b2);
                        match parse_header_block(b2) {
                            None => {},
                            Some(p) => {
                                let m = ReqModel {
                                    method: st.0,
                                    path: st.1,
                                    protocol: st.2,
                                    headers: p.0,
                                    body: p.1,
                                };
                                assert(raw_request_bytes(m) =~= l0 + spec_crlf() + b2);
                                assert(l0 + spec_crlf() + b2 =~= b);
                            },
                        }
                    },
                }
            }
        },
    }
}

/// Parsing is monotonic over a growing buffer: where a prefix parses to no
/// message, the grown buffer parses to no message or to one whose raw
/// serialization is exactly the grown buffer — headers reassembled up to
/// the end of the header block, body all that follows it.
pub proof fn lemma_parse_request_monotonic(p: Seq<u8>, q: Seq<u8>)
    requires
        spec_parse_request(p) == None::<ReqModel>,
    ensures
        match spec_parse_request(p + q) {
            None => true,
            Some(m) => raw_request_bytes(m) == p + q,
        },
{
    lemma_parse_request_section(p + q);
}

/// The decimal value of three digit bytes.
pub proof fn lemma_dec_val3(a: u8, b: u8, c: u8)
    requires
        48 <= a <= 57,
        48 <= b <= 57,
        48 <= c <= 57,
    ensures
        dec_val(seq![a, b, c]) == (a - 48) as nat * 100 + (b - 48) as nat * 10 + (c - 48) as nat,
{
    let s = seq![a, b, c];
    assert(s.drop_last() =~= seq![a, b]);
    assert(seq![a, b].drop_last() =~= seq![a]);
    assert(seq![a].drop_last() =~= Seq::<u8>::empty());
    assert(dec_val(Seq::<u8>::empty()) == 0);
    assert(dec_val(seq![a]) == (a - 48) as nat);
    assert(dec_val(seq![a, b]) == dec_val(seq![a]) * 10 + (b - 48) as nat);
    assert(dec_val(s) == dec_val(seq![a, b]) * 10 + (c - 48) as nat);
}

/// Every supported reason text is its three code digits, a space, and a
/// phrase free of line breaks.
pub proof fn lemma_reason_facts(code: u32)
    requires
        is_supported_status(code),
    ensures
        spec_reason_of(code).len() >= 5,
        no_crlf_bytes(spec_reason_of(code)),
        spec_reason_of(code)[3] == 32u8,
        is_digits(spec_reason_of(code).subrange(0, 3)),
        dec_val(spec_reason_of(code).subrange(0, 3)) == code,
{
    if code == 100 {
        let r = spec_reason_100();
        assert(r.len() == 12);
        assert forall|k: int| 0 <= k < r.len() implies r[k] != 13u8 && r[k] != 10u8 by {
            assert(r[0] == 49u8);
            assert(r[1] == 48u8);
            assert(r[2] == 48u8);
            assert(r[3] == 32u8);
            assert(r[4] == 67u8);
            assert(r[5] == 111u8);
            assert(r[6] == 110u8);
            assert(r[7] == 116u8);
            assert(r[8] == 105u8);
            assert(r[9] == 110u8);
            assert(r[10] == 117u8);
            assert(r[11] == 101u8);
        }
        assert(r.subrange(0, 3) =~= seq![49u8, 48u8, 48u8]);
        lemma_dec_val3(49u8, 48u8, 48u8);
        assert(is_digits(r.subrange(0, 3))) by {
            let t = r.subrange(0, 3);
            assert forall|k: int| 0 <= k < t.len() implies 48u8 <= #[trigger] t[k] <= 57u8 by {
                assert(t[0] == 49u8);
                assert(t[1] == 48u8);
                assert(t[2] == 48u8);
            }
        }
        assert(r[3] == 32u8);
    }
    if code == 200 {
        let r = spec_reason_200();
        assert(r.len() == 6);
        assert forall|k: int| 0 <= k < r.len() implies r[k] != 13u8 && r[k] != 10u8 by {
            assert(r[0] == 50u8);
            assert(r[1] == 48u8);
            assert(r[2] == 48u8);
            assert(r[3] == 32u8);
            assert(r[4] == 79u8);
            assert(r[5] == 75u8);
        }
        assert(r.subrange(0, 3) =~= seq![50u8, 48u8, 48u8]);
        lemma_dec_val3(50u8, 48u8, 48u8);
        assert(is_digits(r.subrange(0, 3))) by {
            let t = r.subrange(0, 3);
            assert forall|k: int| 0 <= k < t.len() implies 48u8 <= #[trigger] t[k] <= 57u8 by {
                assert(t[0] == 50u8);
                assert(t[1] == 48u8);
                assert(t[2] == 48u8);
            }
        }
        assert(r[3] == 32u8);
    }
    if code == 301 {
        let r = spec_reason_301();
        assert(r.len() == 21);
        assert forall|k: int| 0 <= k < r.len() implies r[k] != 13u8 && r[k] != 10u8 by {
            assert(r[0] == 51u8);
            assert(r[1] == 48u8);
            assert(r[2] == 49u8);
            assert(r[3] == 32u8);
            assert(r[4] == 77u8);
            assert(r[5] == 111u8);
            assert(r[6] == 118u8);
            assert(r[7] == 101u8);
            assert(r[8] == 100u8);
            assert(r[9] == 32u8);
            assert(r[10] == 80u8);
            assert(r[11] == 101u8);
            assert(r[12] == 114u8);
            assert(r[13] == 109u8);
            assert(r[14] == 97u8);
            assert(r[15] == 110u8);
            assert(r[16] == 101u8);
            assert(r[17] == 110u8);
            assert(r[18] == 116u8);
            assert(r[19] == 108u8);
            assert(r[20] == 121u8);
        }
        assert(r.subrange(0, 3) =~= seq![51u8, 48u8, 49u8]);
        lemma_dec_val3(51u8, 48u8, 49u8);
        assert(is_digits(r.subrange(0, 3))) by {
            let t = r.subrange(0, 3);
            assert forall|k: int| 0 <= k < t.len() implies 48u8 <= #[trigger] t[k] <= 57u8 by {
                assert(t[0] == 51u8);
                assert(t[1] == 48u8);
                assert(t[2] == 49u8);
            }
        }
        assert(r[3] == 32u8);
    }
    if code == 304 {
        let r = spec_reason_304();
        assert(r.len() == 16);
        assert forall|k: int| 0 <= k < r.len() implies r[k] != 13u8 && r[k] != 10u8 by {
            assert(r[0] == 51u8);
            assert(r[1] == 48u8);
            assert(r[2] == 52u8);
            assert(r[3] == 32u8);
            assert(r[4] == 78u8);
            assert(r[5] == 111u8);
            assert(r[6] == 116u8);
            assert(r[7] == 32u8);
            assert(r[8] == 77u8);
            assert(r[9] == 111u8);
            assert(r[10] == 100u8);
            assert(r[11] == 105u8);
            assert(r[12] == 102u8);
            assert(r[13] == 105u8);
            assert(r[14] == 101u8);
            assert(r[15] == 100u8);
        }
        assert(r.subrange(0, 3) =~= seq![51u8, 48u8, 52u8]);
        lemma_dec_val3(51u8, 48u8, 52u8);
        assert(is_digits(r.subrange(0, 3))) by {
            let t = r.subrange(0, 3);
            assert forall|k: int| 0 <= k < t.len() implies 48u8 <= #[trigger] t[k] <= 57u8 by {
                assert(t[0] == 51u8);
                assert(t[1] == 48u8);
                assert(t[2] == 52u8);
            }
        }
        assert(r[3] == 32u8);
    }
    if code == 400 {
        let r = spec_reason_400();
        assert(r.len() == 15);
        assert forall|k: int| 0 <= k < r.len() implies r[k] != 13u8 && r[k] != 10u8 by {
            assert(r[0] == 52u8);
            assert(r[1] == 48u8);
            assert(r[2] == 48u8);
            assert(r[3] == 32u8);
            assert(r[4] == 66u8);
            assert(r[5] == 97u8);
            assert(r[6] == 100u8);
            assert(r[7] == 32u8);
            assert(r[8] == 82u8);
            assert(r[9] == 101u8);
            assert(r[10] == 113u8);
            assert(r[11] == 117u8);
            assert(r[12] == 101u8);
            assert(r[13] == 115u8);
            assert(r[14] == 116u8);
        }
        assert(r.subrange(0, 3) =~= seq![52u8, 48u8, 48u8]);
        lemma_dec_val3(52u8, 48u8, 48u8);
        assert(is_digits(r.subrange(0, 3))) by {
            let t = r.subrange(0, 3);
            assert forall|k: int| 0 <= k < t.len() implies 48u8 <= #[trigger] t[k] <= 57u8 by {
                assert(t[0] == 52u8);
                assert(t[1] == 48u8);
                assert(t[2] == 48u8);
            }
        }
        assert(r[3] == 32u8);
    }
    if code == 401 {
        let r = spec_reason_401();
        assert(r.len() == 16);
        assert forall|k: int| 0 <= k < r.len() implies r[k] != 13u8 && r[k] != 10u8 by {
            assert(r[0] == 52u8);
            assert(r[1] == 48u8);
            assert(r[2] == 49u8);
            assert(r[3] == 32u8);
            assert(r[4] == 85u8);
            assert(r[5] == 110u8);
            assert(r[6] == 97u8);
            assert(r[7] == 117u8);
            assert(r[8] == 116u8);
            assert(r[9] == 104u8);
            assert(r[10] == 111u8);
            assert(r[11] == 114u8);
            assert(r[12] == 105u8);
            assert(r[13] == 122u8);
            assert(r[14] == 101u8);
            assert(r[15] == 100u8);
        }
        assert(r.subrange(0, 3) =~= seq![52u8, 48u8, 49u8]);
        lemma_dec_val3(52u8, 48u8, 49u8);
        assert(is_digits(r.subrange(0, 3))) by {
            let t = r.subrange(0, 3);
            assert forall|k: int| 0 <= k < t.len() implies 48u8 <= #[trigger] t[k] <= 57u8 by {
                assert(t[0] == 52u8);
                assert(t[1] == 48u8);
                assert(t[2] == 49u8);
            }
        }
        assert(r[3] == 32u8);
    }
    if code == 403 {
        let r = spec_reason_403();
        assert(r.len() == 13);
        assert forall|k: int| 0 <= k < r.len() implies r[k] != 13u8 && r[k] != 10u8 by {
            assert(r[0] == 52u8);
            assert(r[1] == 48u8);
            assert(r[2] == 51u8);
            assert(r[3] == 32u8);
            assert(r[4] == 70u8);
            assert(r[5] == 111u8);
            assert(r[6] == 114u8);
            assert(r[7] == 98u8);
            assert(r[8] == 105u8);
            assert(r[9] == 100u8);
            assert(r[10] == 100u8);
            assert(r[11] == 101u8);
            assert(r[12] == 110u8);
        }
        assert(r.subrange(0, 3) =~= seq![52u8, 48u8, 51u8]);
        lemma_dec_val3(52u8, 48u8, 51u8);
        assert(is_digits(r.subrange(0, 3))) by {
            let t = r.subrange(0, 3);
            assert forall|k: int| 0 <= k < t.len() implies 48u8 <= #[trigger] t[k] <= 57u8 by {
                assert(t[0] == 52u8);
                assert(t[1] == 48u8);
                assert(t[2] == 51u8);
            }
        }
        assert(r[3] == 32u8);
    }
    if code == 404 {
        let r = spec_reason_404();
        assert(r.len() == 13);
        assert forall|k: int| 0 <= k < r.len() implies r[k] != 13u8 && r[k] != 10u8 by {
            assert(r[0] == 52u8);
            assert(r[1] == 48u8);
            assert(r[2] == 52u8);
            assert(r[3] == 32u8);
            assert(r[4] == 78u8);
            assert(r[5] == 111u8);
            assert(r[6] == 116u8);
            assert(r[7] == 32u8);
            assert(r[8] == 70u8);
            assert(r[9] == 111u8);
            assert(r[10] == 117u8);
            assert(r[11] == 110u8);
            assert(r[12] == 100u8);
        }
        assert(r.subrange(0, 3) =~= seq![52u8, 48u8, 52u8]);
        lemma_dec_val3(52u8, 48u8, 52u8);
        assert(is_digits(r.subrange(0, 3))) by {
            let t = r.subrange(0, 3);
            assert forall|k: int| 0 <= k < t.len() implies 48u8 <= #[trigger] t[k] <= 57u8 by {
                assert(t[0] == 52u8);
                assert(t[1] == 48u8);
                assert(t[2] == 52u8);
            }
        }
        assert(r[3] == 32u8);
    }
    if code == 405 {
        let r = spec_reason_405();
        assert(r.len() == 22);
        assert forall|k: int| 0 <= k < r.len() implies r[k] != 13u8 && r[k] != 10u8 by {
            assert(r[0] == 52u8);
            assert(r[1] == 48u8);
            assert(r[2] == 53u8);
            assert(r[3] == 32u8);
            assert(r[4] == 77u8);
            assert(r[5] == 101u8);
            assert(r[6] == 116u8);
            assert(r[7] == 104u8);
            assert(r[8] == 111u8);
            assert(r[9] == 100u8);
            assert(r[10] == 32u8);
            assert(r[11] == 78u8);
            assert(r[12] == 111u8);
            assert(r[13] == 116u8);
            assert(r[14] == 32u8);
            assert(r[15] == 65u8);
            assert(r[16] == 108u8);
            assert(r[17] == 108u8);
            assert(r[18] == 111u8);
            assert(r[19] == 119u8);
            assert(r[20] == 101u8);
            assert(r[21] == 100u8);
        }
        assert(r.subrange(0, 3) =~= seq![52u8, 48u8, 53u8]);
        lemma_dec_val3(52u8, 48u8, 53u8);
        assert(is_digits(r.subrange(0, 3))) by {
            let t = r.subrange(0, 3);
            assert forall|k: int| 0 <= k < t.len() implies 48u8 <= #[trigger] t[k] <= 57u8 by {
                assert(t[0] == 52u8);
                assert(t[1] == 48u8);
                assert(t[2] == 53u8);
            }
        }
        assert(r[3] == 32u8);
    }
    if code == 418 {
        let r = spec_reason_418();
        assert(r.len() == 16);
        assert forall|k: int| 0 <= k < r.len() implies r[k] != 13u8 && r[k] != 10u8 by {
            assert(r[0] == 52u8);
            assert(r[1] == 49u8);
            assert(r[2] == 56u8);
            assert(r[3] == 32u8);
            assert(r[4] == 73u8);
            assert(r[5] == 39u8);
            assert(r[6] == 109u8);
            assert(r[7] == 32u8);
            assert(r[8] == 97u8);
            assert(r[9] == 32u8);
            assert(r[10] == 116u8);
            assert(r[11] == 101u8);
            assert(r[12] == 97u8);
            assert(r[13] == 112u8);
            assert(r[14] == 111u8);
            assert(r[15] == 116u8);
        }
        assert(r.subrange(0, 3) =~= seq![52u8, 49u8, 56u8]);
        lemma_dec_val3(52u8, 49u8, 56u8);
        assert(is_digits(r.subrange(0, 3))) by {
            let t = r.subrange(0, 3);
            assert forall|k: int| 0 <= k < t.len() implies 48u8 <= #[trigger] t[k] <= 57u8 by {
                assert(t[0] == 52u8);
                assert(t[1] == 49u8);
                assert(t[2] == 56u8);
            }
        }
        assert(r[3] == 32u8);
    }
    if code == 500 {
        let r = spec_reason_500();
        assert(r.len() == 25);
        assert forall|k: int| 0 <= k < r.len() implies r[k] != 13u8 && r[k] != 10u8 by {
            assert(r[0] == 53u8);
            assert(r[1] == 48u8);
            assert(r[2] == 48u8);
            assert(r[3] == 32u8);
            assert(r[4] == 73u8);
            assert(r[5] == 110u8);
            assert(r[6] == 116u8);
            assert(r[7] == 101u8);
            assert(r[8] == 114u8);
            assert(r[9] == 110u8);
            assert(r[10] == 97u8);
            assert(r[11] == 108u8);
            assert(r[12] == 32u8);
            assert(r[13] == 83u8);
            assert(r[14] == 101u8);
            assert(r[15] == 114u8);
            assert(r[16] == 118u8);
            assert(r[17] == 101u8);
            assert(r[18] == 114u8);
            assert(r[19] == 32u8);
            assert(r[20] == 69u8);
            assert(r[21] == 114u8);
            assert(r[22] == 114u8);
            assert(r[23] == 111u8);
            assert(r[24] == 114u8);
        }
        assert(r.subrange(0, 3) =~= seq![53u8, 48u8, 48u8]);
        lemma_dec_val3(53u8, 48u8, 48u8);
        assert(is_digits(r.subrange(0, 3))) by {
            let t = r.subrange(0, 3);
            assert forall|k: int| 0 <= k < t.len() implies 48u8 <= #[trigger] t[k] <= 57u8 by {
                assert(t[0] == 53u8);
                assert(t[1] == 48u8);
                assert(t[2] == 48u8);
            }
        }
        assert(r[3] == 32u8);
    }
    if code == 501 {
        let r = spec_reason_501();
        assert(r.len() == 19);
        assert forall|k: int| 0 <= k < r.len() implies r[k] != 13u8 && r[k] != 10u8 by {
            assert(r[0] == 53u8);
            assert(r[1] == 48u8);
            assert(r[2] == 49u8);
            assert(r[3] == 32u8);
            assert(r[4] == 78u8);
            assert(r[5] == 111u8);
            assert(r[6] == 116u8);
            assert(r[7] == 32u8);
            assert(r[8] == 73u8);
            assert(r[9] == 109u8);
            assert(r[10] == 112u8);
            assert(r[11] == 108u8);
            assert(r[12] == 101u8);
            assert(r[13] == 109u8);
            assert(r[14] == 101u8);
            assert(r[15] == 110u8);
            assert(r[16] == 116u8);
            assert(r[17] == 101u8);
            assert(r[18] == 100u8);
        }
        assert(r.subrange(0, 3) =~= seq![53u8, 48u8, 49u8]);
        lemma_dec_val3(53u8, 48u8, 49u8);
        assert(is_digits(r.subrange(0, 3))) by {
            let t = r.subrange(0, 3);
            assert forall|k: int| 0 <= k < t.len() implies 48u8 <= #[trigger] t[k] <= 57u8 by {
                assert(t[0] == 53u8);
                assert(t[1] == 48u8);
                assert(t[2] == 49u8);
            }
        }
        assert(r[3] == 32u8);
    }
    if code == 502 {
        let r = spec_reason_502();
        assert(r.len() == 15);
        assert forall|k: int| 0 <= k < r.len() implies r[k] != 13u8 && r[k] != 10u8 by {
            assert(r[0] == 53u8);
            assert(r[1] == 48u8);
            assert(r[2] == 50u8);
            assert(r[3] == 32u8);
            assert(r[4] == 66u8);
            assert(r[5] == 97u8);
            assert(r[6] == 100u8);
            assert(r[7] == 32u8);
            assert(r[8] == 71u8);
            assert(r[9] == 97u8);
            assert(r[10] == 116u8);
            assert(r[11] == 101u8);
            assert(r[12] == 119u8);
            assert(r[13] == 97u8);
            assert(r[14] == 121u8);
        }
        assert(r.subrange(0, 3) =~= seq![53u8, 48u8, 50u8]);
        lemma_dec_val3(53u8, 48u8, 50u8);
        assert(is_digits(r.subrange(0, 3))) by {
            let t = r.subrange(0, 3);
            assert forall|k: int| 0 <= k < t.len() implies 48u8 <= #[trigger] t[k] <= 57u8 by {
                assert(t[0] == 53u8);
                assert(t[1] == 48u8);
                assert(t[2] == 50u8);
            }
        }
        assert(r[3] == 32u8);
    }
}

} // verus!
