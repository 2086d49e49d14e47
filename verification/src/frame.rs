//! Framing: when a growing byte buffer holds a complete HTTP message.
//!
//! A message is complete when it parses and its `Content-Length` header, if
//! any, equals the parsed body length. A request without `Content-Length`
//! is complete as soon as it parses; a response without one is delimited by
//! the peer closing, so it only becomes final when no more bytes can come.

use vstd::prelude::*;

use crate::codec::{dec_val, header_lookup, is_digits, parse_dec};
use crate::lit::{lit_content_length_key, spec_content_length_key};
use crate::request::{spec_parse_request, HTTPRequest, ReqModel};
use crate::response::{spec_parse_response, HTTPResponse, RespModel};
use crate::scan::append_bytes;

verus! {

/// The `Content-Length` value of a header list, if any.
pub open spec fn content_length_of(hs: Seq<(Seq<u8>, Seq<u8>)>) -> Option<Seq<u8>> {
    header_lookup(hs, spec_content_length_key())
}

/// A declared length that matches the body on hand.
pub open spec fn length_matches(v: Seq<u8>, body: Seq<u8>) -> bool {
    is_digits(v) && v.len() > 0 && dec_val(v) == body.len()
}

/// The complete request framed by `b`, if `b` holds one: it parses, and its
/// `Content-Length`, when present, equals the body length. Absent a
/// `Content-Length`, a parsed request is complete at once.
pub open spec fn request_frame_spec(b: Seq<u8>) -> Option<ReqModel> {
    match spec_parse_request(b) {
        None => None,
        Some(m) => match content_length_of(m.headers) {
            None => Some(m),
            Some(v) => if length_matches(v, m.body) {
                Some(m)
            } else {
                None
            },
        },
    }
}

/// The complete length-delimited response framed by `b`, if `b` holds one:
/// it parses, carries a `Content-Length`, and that length equals the body
/// length. A response without `Content-Length` is never ready here; it is
/// delimited by close.
pub open spec fn response_ready_spec(b: Seq<u8>) -> Option<RespModel> {
    match spec_parse_response(b) {
        None => None,
        Some(m) => match content_length_of(m.headers) {
            None => None,
            Some(v) => if length_matches(v, m.body) {
                Some(m)
            } else {
                None
            },
        },
    }
}

/// Running the request framing loop from buffer `buf` over the chunks still
/// to come: each chunk is appended in turn and the buffer tried; when the
/// chunks run out the stream is closed and the last try decides.
pub open spec fn frame_request_from(buf: Seq<u8>, chunks: Seq<Seq<u8>>) -> Option<ReqModel>
    decreases chunks.len(),
{
    if chunks.len() == 0 {
        request_frame_spec(buf)
    } else {
        let b2 = buf + chunks[0];
        match request_frame_spec(b2) {
            Some(m) => Some(m),
            None => frame_request_from(b2, chunks.drop_first()),
        }
    }
}

/// Running the response framing loop: mid-stream only a length-delimited
/// response returns early; at close the buffer is parsed as it stands, so a
/// response without `Content-Length` gets everything after the headers.
pub open spec fn frame_response_from(buf: Seq<u8>, chunks: Seq<Seq<u8>>) -> Option<RespModel>
    decreases chunks.len(),
{
    if chunks.len() == 0 {
        spec_parse_response(buf)
    } else {
        let b2 = buf + chunks[0];
        match response_ready_spec(b2) {
            Some(m) => Some(m),
            None => frame_response_from(b2, chunks.drop_first()),
        }
    }
}

/// All the bytes a delivery holds: the buffer so far and every chunk still
/// to come, in order.
pub open spec fn concat_from(buf: Seq<u8>, chunks: Seq<Seq<u8>>) -> Seq<u8>
    decreases chunks.len(),
{
    if chunks.len() == 0 {
        buf
    } else {
        concat_from(buf + chunks[0], chunks.drop_first())
    }
}

/// The buffer factors out of the concatenation.
pub proof fn lemma_concat_from_split(buf: Seq<u8>, chunks: Seq<Seq<u8>>)
    ensures
        concat_from(buf, chunks) == buf + concat_from(Seq::empty(), chunks),
    decreases chunks.len(),
{
    if chunks.len() == 0 {
        assert(buf + concat_from(Seq::empty(), chunks) =~= buf);
    } else {
        lemma_concat_from_split(buf + chunks[0], chunks.drop_first());
        lemma_concat_from_split(Seq::empty() + chunks[0], chunks.drop_first());
        let k = concat_from(Seq::empty(), chunks.drop_first());
        assert(Seq::empty() + chunks[0] =~= chunks[0]);
        assert(concat_from(Seq::empty(), chunks) == chunks[0] + k);
        assert((buf + chunks[0]) + k =~= buf + (chunks[0] + k));
    }
}

/// One entry of a chunk list, seen through the deep view.
pub proof fn lemma_chunk_at(cs: Vec<Vec<u8>>, i: int)
    requires
        0 <= i < cs@.len(),
    ensures
        cs.deep_view().len() == cs@.len(),
        cs.deep_view()[i] == cs@[i]@,
{
    assert(cs.deep_view()[i] == cs@[i].deep_view());
    assert(cs@[i].deep_view() =~= cs@[i]@);
}

/// Decide whether `buf` holds a complete request.
pub fn try_frame_request(buf: &Vec<u8>) -> (r: Option<HTTPRequest>)
    ensures
        match r {
            Some(req) => request_frame_spec(buf@) == Some(req@),
            None => request_frame_spec(buf@) == None::<ReqModel>,
        },
{
    match HTTPRequest::parse_message(buf) {
        None => None,
        Some(req) => {
            let key = lit_content_length_key();
            let body_len = req.body.len();
            let ok = match req.get_header_value(&key) {
                None => true,
                Some(v) => match parse_dec(v) {
                    Some(cl) => cl == body_len,
                    None => false,
                },
            };
            if ok {
                Some(req)
            } else {
                None
            }
        },
    }
}

/// Decide whether `buf` holds a complete length-delimited response.
pub fn try_frame_response(buf: &Vec<u8>) -> (r: Option<HTTPResponse>)
    ensures
        match r {
            Some(resp) => response_ready_spec(buf@) == Some(resp@),
            None => response_ready_spec(buf@) == None::<RespModel>,
        },
{
    match HTTPResponse::parse_message(buf) {
        None => None,
        Some(resp) => {
            let key = lit_content_length_key();
            let body_len = resp.body.len();
            let ok = match resp.get_header_value(&key) {
                None => false,
                Some(v) => match parse_dec(v) {
                    Some(cl) => cl == body_len,
                    None => false,
                },
            };
            if ok {
                Some(resp)
            } else {
                None
            }
        },
    }
}

/// Frame a request out of the chunks a stream delivered, in order, the end
/// of the list standing for the peer's close.
pub fn frame_request_chunks(chunks: &Vec<Vec<u8>>) -> (r: Option<HTTPRequest>)
    ensures
        match r {
            Some(req) => frame_request_from(Seq::empty(), chunks.deep_view()) == Some(req@),
            None => frame_request_from(Seq::empty(), chunks.deep_view()) == None::<ReqModel>,
        },
{
    let mut buf: Vec<u8> = Vec::new();
    let mut i: usize = 0;
    proof {
        assert(buf@ =~= Seq::<u8>::empty());
        assert(chunks.deep_view().skip(0) =~= chunks.deep_view());
    }
    while i < chunks.len()
        invariant
            i <= chunks@.len(),
            chunks.deep_view().len() == chunks@.len(),
            frame_request_from(Seq::empty(), chunks.deep_view()) == frame_request_from(
                buf@,
                chunks.deep_view().skip(i as int),
            ),
        decreases chunks@.len() - i,
    {
        proof {
            lemma_chunk_at(*chunks, i as int);
        }
        append_bytes(&mut buf, &chunks[i]);
        let ghost rest = chunks.deep_view().skip(i as int);
        proof {
            assert(rest[0] == chunks.deep_view()[i as int]);
            assert(rest.drop_first() =~= chunks.deep_view().skip(i + 1 as int));
        }
        match try_frame_request(&buf) {
            Some(req) => {
                return Some(req);
            },
            None => {},
        }
        i = i + 1;
    }
    proof {
        assert(chunks.deep_view().skip(chunks@.len() as int) =~= Seq::<Seq<u8>>::empty());
    }
    try_frame_request(&buf)
}

/// Frame a response out of the chunks a stream delivered, in order, the end
/// of the list standing for the peer's close.
pub fn frame_response_chunks(chunks: &Vec<Vec<u8>>) -> (r: Option<HTTPResponse>)
    ensures
        match r {
            Some(resp) => frame_response_from(Seq::empty(), chunks.deep_view()) == Some(resp@),
            None => frame_response_from(Seq::empty(), chunks.deep_view()) == None::<RespModel>,
        },
{
    let mut buf: Vec<u8> = Vec::new();
    let mut i: usize = 0;
    proof {
        assert(buf@ =~= Seq::<u8>::empty());
        assert(chunks.deep_view().skip(0) =~= chunks.deep_view());
    }
    while i < chunks.len()
        invariant
            i <= chunks@.len(),
            chunks.deep_view().len() == chunks@.len(),
            frame_response_from(Seq::empty(), chunks.deep_view()) == frame_response_from(
                buf@,
                chunks.deep_view().skip(i as int),
            ),
        decreases chunks@.len() - i,
    {
        proof {
            lemma_chunk_at(*chunks, i as int);
        }
        append_bytes(&mut buf, &chunks[i]);
        let ghost rest = chunks.deep_view().skip(i as int);
        proof {
            assert(rest[0] == chunks.deep_view()[i as int]);
            assert(rest.drop_first() =~= chunks.deep_view().skip(i + 1 as int));
        }
        match try_frame_response(&buf) {
            Some(resp) => {
                return Some(resp);
            },
            None => {},
        }
        i = i + 1;
    }
    proof {
        assert(chunks.deep_view().skip(chunks@.len() as int) =~= Seq::<Seq<u8>>::empty());
    }
    HTTPResponse::parse_message(&buf)
}

} // verus!
