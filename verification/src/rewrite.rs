//! Rewriting a client-facing absolute-form request into the origin-facing
//! relative form: split the target URL, rebuild the headers with `Host`
//! first and the hop-by-hop headers replaced, keep method and body.

use vstd::prelude::*;

use crate::codec::{header_lookup, lookup_header, lemma_header_at};
use crate::lit::{
    lit_close_value, lit_connection_key, lit_host_key, lit_http11, lit_proxy_connection_key,
    spec_close_value, spec_connection_key, spec_host_key, spec_http11, spec_http_scheme,
    spec_proxy_connection_key,
};
use crate::request::{
    emit_req_headers, emit_req_header_one, HTTPRequest, ReqModel,
};
use crate::scan::{copy_bytes, is_prefix_of};

verus! {

/// What `url::Url::parse` accepts of a target: it parses and names a host.
pub uninterp spec fn url_parses(target: Seq<u8>) -> bool;

/// The host the parsed target names, through `url::Url::host_str`.
pub uninterp spec fn url_host_of(target: Seq<u8>) -> Seq<u8>;

/// The path of the parsed target, through `url::Url::path`.
pub uninterp spec fn url_path_of(target: Seq<u8>) -> Seq<u8>;

/// The query of the parsed target, through `url::Url::query`.
pub uninterp spec fn url_query_of(target: Seq<u8>) -> Option<Seq<u8>>;

/// A request-target split into what the rewriter reads of it.
pub struct UrlParts {
    pub host: Vec<u8>,
    pub path: Vec<u8>,
    pub query: Option<Vec<u8>>,
}

/// Relies on `url::Url::parse` and its accessors `host_str`, `path` and
/// `query`: what they return depends on the target string alone, so each
/// result carries its name; nothing succeeds unless the target is UTF-8,
/// parses as a URL, and names a host.
#[verifier::external_body]
pub fn split_url(target: &Vec<u8>) -> (r: Option<UrlParts>)
    ensures
        match r {
            Some(p) => url_parses(target@) && p.host@ == url_host_of(target@) && p.path@
                == url_path_of(target@) && (match p.query {
                Some(q) => url_query_of(target@) == Some(q@),
                None => url_query_of(target@) == None::<Seq<u8>>,
            }),
            None => !url_parses(target@),
        },
{
    let s = match std::str::from_utf8(target.as_slice()) {
        Ok(s) => s,
        Err(_) => return None,
    };
    let u = match url::Url::parse(s) {
        Ok(u) => u,
        Err(_) => return None,
    };
    let host = match u.host_str() {
        Some(h) => h.as_bytes().to_vec(),
        None => return None,
    };
    let path = u.path().as_bytes().to_vec();
    let query = u.query().map(|q| q.as_bytes().to_vec());
    Some(UrlParts { host, path, query })
}

/// The path the origin sees: the URL path, `/` when empty, with `?query`
/// appended when there is one.
pub open spec fn path_with_query_spec(path: Seq<u8>, query: Option<Seq<u8>>) -> Seq<u8> {
    let p = if path.len() == 0 {
        seq![47u8]
    } else {
        path
    };
    match query {
        None => p,
        Some(q) => p + seq![63u8] + q,
    }
}

/// Build the origin-facing request-target out of the split URL.
pub fn path_with_query(path: &Vec<u8>, query: &Option<Vec<u8>>) -> (r: Vec<u8>)
    ensures
        r@ == path_with_query_spec(path@, match query {
            Some(q) => Some(q@),
            None => None::<Seq<u8>>,
        }),
{
    let mut out: Vec<u8> = Vec::new();
    if path.len() == 0 {
        out.push(47u8);
        proof {
            assert(out@ =~= seq![47u8]);
        }
    } else {
        crate::scan::append_bytes(&mut out, path);
        proof {
            assert(out@ =~= path@);
        }
    }
    match query {
        None => out,
        Some(q) => {
            out.push(63u8);
            crate::scan::append_bytes(&mut out, q);
            proof {
                assert(out@ =~= path_with_query_spec(path@, Some(q@)));
            }
            out
        },
    }
}

/// The headers the rewriter removes from the incoming list: `Host` is
/// re-sourced, `Connection` and `Proxy-Connection` are re-appended.
pub open spec fn is_hop_key(k: Seq<u8>) -> bool {
    ||| k == spec_host_key()
    ||| k == spec_connection_key()
    ||| k == spec_proxy_connection_key()
}

/// The incoming headers with the hop keys removed, order kept.
pub open spec fn filter_hop_headers(hs: Seq<(Seq<u8>, Seq<u8>)>) -> Seq<(Seq<u8>, Seq<u8>)>
    decreases hs.len(),
{
    if hs.len() == 0 {
        Seq::empty()
    } else {
        let rest = filter_hop_headers(hs.drop_first());
        if is_hop_key(hs[0].0) {
            rest
        } else {
            seq![hs[0]] + rest
        }
    }
}

/// The `Host` value the rewriter uses: the incoming `Host` header when
/// present, else the host named in the target URL.
pub open spec fn rewrite_host_value(hs: Seq<(Seq<u8>, Seq<u8>)>, url_host: Seq<u8>) -> Seq<u8> {
    match header_lookup(hs, spec_host_key()) {
        Some(v) => v,
        None => url_host,
    }
}

/// The rewritten header list: `Host` first, then every incoming header but
/// the hop keys in original order, then `Connection: close` and
/// `Proxy-Connection: close`.
pub open spec fn rewrite_headers_spec(
    hs: Seq<(Seq<u8>, Seq<u8>)>,
    url_host: Seq<u8>,
) -> Seq<(Seq<u8>, Seq<u8>)> {
    seq![(spec_host_key(), rewrite_host_value(hs, url_host))] + filter_hop_headers(hs) + seq![
        (spec_connection_key(), spec_close_value()),
        (spec_proxy_connection_key(), spec_close_value()),
    ]
}

/// The whole rewrite: nothing when the target does not split; else the same
/// method and body, the relative-form target, the supported protocol, and
/// the rebuilt headers.
pub open spec fn spec_rewrite_request(m: ReqModel) -> Option<ReqModel> {
    if !url_parses(m.path) {
        None
    } else {
        Some(
            ReqModel {
                method: m.method,
                path: path_with_query_spec(url_path_of(m.path), url_query_of(m.path)),
                protocol: spec_http11(),
                headers: rewrite_headers_spec(m.headers, url_host_of(m.path)),
                body: m.body,
            },
        )
    }
}

/// Rebuild a header list for the origin.
pub fn rewrite_headers(headers: &Vec<(Vec<u8>, Vec<u8>)>, url_host: &Vec<u8>) -> (r: Vec<
    (Vec<u8>, Vec<u8>),
>)
    ensures
        r.deep_view() == rewrite_headers_spec(headers.deep_view(), url_host@),
{
    let host_key = lit_host_key();
    let host_val = match lookup_header(headers, &host_key) {
        Some(v) => copy_bytes(v),
        None => copy_bytes(url_host),
    };
    let mut out: Vec<(Vec<u8>, Vec<u8>)> = Vec::new();
    out.push((lit_host_key(), host_val));
    let ghost first = seq![(spec_host_key(), rewrite_host_value(headers.deep_view(), url_host@))];
    proof {
        assert(out.deep_view() =~~= first);
    }
    let conn_key = lit_connection_key();
    let pc_key = lit_proxy_connection_key();
    let mut i: usize = 0;
    while i < headers.len()
        invariant
            i <= headers@.len(),
            out.deep_view() == first + filter_hop_headers(
                headers.deep_view().subrange(0, i as int),
            ),
            host_key@ == spec_host_key(),
            conn_key@ == spec_connection_key(),
            pc_key@ == spec_proxy_connection_key(),
            first == seq![
                (spec_host_key(), rewrite_host_value(headers.deep_view(), url_host@)),
            ],
        decreases headers@.len() - i,
    {
        let ghost pre = headers.deep_view().subrange(0, i as int);
        let ghost h = headers.deep_view()[i as int];
        proof {
            lemma_header_at(*headers, i as int);
        }
        let skip = crate::scan::bytes_eq(&headers[i].0, &host_key) || crate::scan::bytes_eq(
            &headers[i].0,
            &conn_key,
        ) || crate::scan::bytes_eq(&headers[i].0, &pc_key);
        if !skip {
            let ghost old_out = out;
            out.push((copy_bytes(&headers[i].0), copy_bytes(&headers[i].1)));
            proof {
                assert(out.deep_view() =~~= old_out.deep_view().push(h));
            }
        }
        proof {
            lemma_filter_hop_push(pre, h);
            assert(pre.push(h) =~= headers.deep_view().subrange(0, i + 1 as int));
            if is_hop_key(h.0) {
                assert(out.deep_view() =~= first + filter_hop_headers(pre.push(h)));
            } else {
                assert(out.deep_view() =~= first + filter_hop_headers(pre.push(h)));
            }
        }
        i = i + 1;
    }
    proof {
        assert(headers.deep_view().subrange(0, headers.deep_view().len() as int)
            =~= headers.deep_view());
    }
    let ghost mid = out.deep_view();
    out.push((lit_connection_key(), lit_close_value()));
    out.push((lit_proxy_connection_key(), lit_close_value()));
    proof {
        assert(out.deep_view() =~~= mid + seq![
            (spec_connection_key(), spec_close_value()),
            (spec_proxy_connection_key(), spec_close_value()),
        ]);
        assert(out.deep_view() =~= rewrite_headers_spec(headers.deep_view(), url_host@));
    }
    out
}

impl HTTPRequest {
    /// Build the request this proxy sends to the real destination: the
    /// absolute-form target is split, the origin sees the relative form.
    /// Nothing when the target does not parse as a URL with a host.
    pub fn build_request_for_proxy(&self) -> (r: Option<Self>)
        requires
            is_prefix_of(spec_http_scheme(), self@.path),
        ensures
            match r {
                Some(req) => spec_rewrite_request(self@) == Some(req@),
                None => spec_rewrite_request(self@) == None::<ReqModel>,
            },
    {
        match split_url(&self.path) {
            None => None,
            Some(parts) => {
                let path = path_with_query(&parts.path, &parts.query);
                let headers = rewrite_headers(&self.headers, &parts.host);
                let req = HTTPRequest {
                    method: copy_bytes(&self.method),
                    path,
                    protocol: lit_http11(),
                    headers,
                    body: copy_bytes(&self.body),
                };
                proof {
                    assert(spec_rewrite_request(self@) == Some(req@));
                }
                Some(req)
            },
        }
    }
}

// ---------------------------------------------------------------------------
// Laws of the rewrite
// ---------------------------------------------------------------------------

/// How many headers of `hs` are named `key`.
pub open spec fn count_key(hs: Seq<(Seq<u8>, Seq<u8>)>, key: Seq<u8>) -> nat
    decreases hs.len(),
{
    if hs.len() == 0 {
        0
    } else {
        (if hs[0].0 == key {
            1nat
        } else {
            0nat
        }) + count_key(hs.drop_first(), key)
    }
}

pub proof fn lemma_filter_hop_push(hs: Seq<(Seq<u8>, Seq<u8>)>, h: (Seq<u8>, Seq<u8>))
    ensures
        filter_hop_headers(hs.push(h)) == if is_hop_key(h.0) {
            filter_hop_headers(hs)
        } else {
            filter_hop_headers(hs).push(h)
        },
    decreases hs.len(),
{
    if hs.len() == 0 {
        assert(hs.push(h)[0] == h);
        assert(hs.push(h).drop_first() =~= Seq::<(Seq<u8>, Seq<u8>)>::empty());
        assert(filter_hop_headers(Seq::<(Seq<u8>, Seq<u8>)>::empty())
            == Seq::<(Seq<u8>, Seq<u8>)>::empty());
        if is_hop_key(h.0) {
            assert(filter_hop_headers(hs.push(h)) =~= filter_hop_headers(hs));
        } else {
            assert(filter_hop_headers(hs.push(h)) =~= filter_hop_headers(hs).push(h));
        }
    } else {
        assert(hs.push(h).drop_first() =~= hs.drop_first().push(h));
        assert(hs.push(h)[0] == hs[0]);
        lemma_filter_hop_push(hs.drop_first(), h);
        if is_hop_key(h.0) {
            assert(filter_hop_headers(hs.push(h)) =~= filter_hop_headers(hs));
        } else {
            assert(filter_hop_headers(hs.push(h)) =~= filter_hop_headers(hs).push(h));
        }
    }
}

pub proof fn lemma_filter_hop_concat(a: Seq<(Seq<u8>, Seq<u8>)>, b: Seq<(Seq<u8>, Seq<u8>)>)
    ensures
        filter_hop_headers(a + b) == filter_hop_headers(a) + filter_hop_headers(b),
    decreases a.len(),
{
    if a.len() == 0 {
        assert(a + b =~= b);
        assert(filter_hop_headers(a) == Seq::<(Seq<u8>, Seq<u8>)>::empty());
        assert(filter_hop_headers(a) + filter_hop_headers(b) =~= filter_hop_headers(b));
    } else {
        assert((a + b)[0] == a[0]);
        assert((a + b).drop_first() =~= a.drop_first() + b);
        lemma_filter_hop_concat(a.drop_first(), b);
        if is_hop_key(a[0].0) {
            assert(filter_hop_headers(a + b) =~= filter_hop_headers(a) + filter_hop_headers(b));
        } else {
            assert(filter_hop_headers(a + b) =~= filter_hop_headers(a) + filter_hop_headers(b));
        }
    }
}

/// One header, filtered.
pub proof fn lemma_filter_hop_singleton(h: (Seq<u8>, Seq<u8>))
    ensures
        filter_hop_headers(seq![h]) == if is_hop_key(h.0) {
            Seq::<(Seq<u8>, Seq<u8>)>::empty()
        } else {
            seq![h]
        },
{
    assert(seq![h].drop_first() =~= Seq::<(Seq<u8>, Seq<u8>)>::empty());
    assert(filter_hop_headers(Seq::<(Seq<u8>, Seq<u8>)>::empty())
        == Seq::<(Seq<u8>, Seq<u8>)>::empty());
    if is_hop_key(h.0) {
        assert(filter_hop_headers(seq![h]) =~= Seq::<(Seq<u8>, Seq<u8>)>::empty());
    } else {
        assert(filter_hop_headers(seq![h]) =~= seq![h]);
    }
}

/// One header, serialized for a request.
pub proof fn lemma_emit_req_singleton(h: (Seq<u8>, Seq<u8>))
    ensures
        emit_req_headers(seq![h]) == emit_req_header_one(h),
{
    assert(seq![h].drop_first() =~= Seq::<(Seq<u8>, Seq<u8>)>::empty());
    assert(emit_req_headers(Seq::<(Seq<u8>, Seq<u8>)>::empty())
        == Seq::<(Seq<u8>, Seq<u8>)>::empty());
    assert(emit_req_headers(seq![h]) =~= emit_req_header_one(h));
}

/// Nothing the filter lets through carries a hop key.
pub proof fn lemma_filter_hop_clean(hs: Seq<(Seq<u8>, Seq<u8>)>)
    ensures
        forall|i: int| 0 <= i < filter_hop_headers(hs).len() ==> !is_hop_key(
            (#[trigger] filter_hop_headers(hs)[i]).0,
        ),
    decreases hs.len(),
{
    if hs.len() > 0 {
        lemma_filter_hop_clean(hs.drop_first());
        let f = filter_hop_headers(hs);
        let rest = filter_hop_headers(hs.drop_first());
        if !is_hop_key(hs[0].0) {
            assert forall|i: int| 0 <= i < f.len() implies !is_hop_key(
                (#[trigger] f[i]).0,
            ) by {
                if i == 0 {
                    assert(f[0] == hs[0]);
                } else {
                    assert(f[i] == rest[i - 1]);
                }
            }
        }
    }
}

/// The filter does not touch a list without hop keys.
pub proof fn lemma_filter_hop_id(hs: Seq<(Seq<u8>, Seq<u8>)>)
    requires
        forall|i: int| 0 <= i < hs.len() ==> !is_hop_key((#[trigger] hs[i]).0),
    ensures
        filter_hop_headers(hs) == hs,
    decreases hs.len(),
{
    if hs.len() > 0 {
        lemma_filter_hop_id(hs.drop_first());
        assert(filter_hop_headers(hs) =~= hs);
    }
}

/// Rewriting twice is rewriting once: the second pass finds `Host` already
/// first, the hop headers already filtered, and the appended pair already
/// in place, whatever host the second pass would fall back to.
pub proof fn lemma_rewrite_headers_idempotent(
    hs: Seq<(Seq<u8>, Seq<u8>)>,
    u: Seq<u8>,
    u2: Seq<u8>,
)
    ensures
        rewrite_headers_spec(rewrite_headers_spec(hs, u), u2) == rewrite_headers_spec(hs, u),
{
    let hv = rewrite_host_value(hs, u);
    let f = filter_hop_headers(hs);
    let tail = seq![
        (spec_connection_key(), spec_close_value()),
        (spec_proxy_connection_key(), spec_close_value()),
    ];
    let r1 = rewrite_headers_spec(hs, u);
    assert(r1 == seq![(spec_host_key(), hv)] + f + tail);
    assert(r1[0] == (spec_host_key(), hv));
    assert(header_lookup(r1, spec_host_key()) == Some(hv));
    assert(rewrite_host_value(r1, u2) == hv);
    lemma_filter_hop_concat(seq![(spec_host_key(), hv)] + f, tail);
    lemma_filter_hop_concat(seq![(spec_host_key(), hv)], f);
    lemma_filter_hop_singleton((spec_host_key(), hv));
    assert(tail =~= seq![(spec_connection_key(), spec_close_value())] + seq![
        (spec_proxy_connection_key(), spec_close_value()),
    ]);
    lemma_filter_hop_concat(
        seq![(spec_connection_key(), spec_close_value())],
        seq![(spec_proxy_connection_key(), spec_close_value())],
    );
    lemma_filter_hop_singleton((spec_connection_key(), spec_close_value()));
    lemma_filter_hop_singleton((spec_proxy_connection_key(), spec_close_value()));
    lemma_filter_hop_clean(hs);
    lemma_filter_hop_id(f);
    assert(filter_hop_headers(r1) =~= f);
    assert(rewrite_headers_spec(r1, u2) =~= r1);
}

pub proof fn lemma_count_key_concat(
    a: Seq<(Seq<u8>, Seq<u8>)>,
    b: Seq<(Seq<u8>, Seq<u8>)>,
    key: Seq<u8>,
)
    ensures
        count_key(a + b, key) == count_key(a, key) + count_key(b, key),
    decreases a.len(),
{
    if a.len() == 0 {
        assert(a + b =~= b);
    } else {
        assert((a + b)[0] == a[0]);
        assert((a + b).drop_first() =~= a.drop_first() + b);
        lemma_count_key_concat(a.drop_first(), b, key);
    }
}

pub proof fn lemma_count_key_zero(hs: Seq<(Seq<u8>, Seq<u8>)>, key: Seq<u8>)
    requires
        forall|i: int| 0 <= i < hs.len() ==> (#[trigger] hs[i]).0 != key,
    ensures
        count_key(hs, key) == 0,
    decreases hs.len(),
{
    if hs.len() > 0 {
        lemma_count_key_zero(hs.drop_first(), key);
    }
}

/// The request serializer does not change a list without `Connection` or
/// `Proxy-Connection` keys.
pub proof fn lemma_emit_req_id(hs: Seq<(Seq<u8>, Seq<u8>)>)
    requires
        forall|i: int| 0 <= i < hs.len() ==> (#[trigger] hs[i]).0 != spec_connection_key()
            && hs[i].0 != spec_proxy_connection_key(),
    ensures
        emit_req_headers(hs) == hs,
    decreases hs.len(),
{
    if hs.len() > 0 {
        lemma_emit_req_id(hs.drop_first());
        assert(emit_req_headers(hs) =~= hs);
    }
}

pub proof fn lemma_emit_req_concat(a: Seq<(Seq<u8>, Seq<u8>)>, b: Seq<(Seq<u8>, Seq<u8>)>)
    ensures
        emit_req_headers(a + b) == emit_req_headers(a) + emit_req_headers(b),
    decreases a.len(),
{
    if a.len() == 0 {
        assert(a + b =~= b);
        assert(emit_req_headers(a) + emit_req_headers(b) =~= emit_req_headers(b));
    } else {
        assert((a + b)[0] == a[0]);
        assert((a + b).drop_first() =~= a.drop_first() + b);
        lemma_emit_req_concat(a.drop_first(), b);
        assert(emit_req_headers(a + b) =~= emit_req_headers(a) + emit_req_headers(b));
    }
}

/// What the origin sees of a rewritten header list once serialized: `Host`
/// exactly once and first, no `Proxy-Connection`, and exactly one
/// `Connection`, whose value is `close`.
pub proof fn lemma_rewritten_headers_on_wire(hs: Seq<(Seq<u8>, Seq<u8>)>, u: Seq<u8>)
    ensures
        ({
            let e = emit_req_headers(rewrite_headers_spec(hs, u));
            &&& e == seq![(spec_host_key(), rewrite_host_value(hs, u))] + filter_hop_headers(hs)
                + seq![(spec_connection_key(), spec_close_value())]
            &&& e.len() >= 1
            &&& e[0] == (spec_host_key(), rewrite_host_value(hs, u))
            &&& count_key(e, spec_host_key()) == 1
            &&& count_key(e, spec_proxy_connection_key()) == 0
            &&& count_key(e, spec_connection_key()) == 1
            &&& forall|i: int| 0 <= i < e.len() && (#[trigger] e[i]).0 == spec_connection_key()
                ==> e[i].1 == spec_close_value()
        }),
{
    let hv = rewrite_host_value(hs, u);
    let f = filter_hop_headers(hs);
    let head = seq![(spec_host_key(), hv)];
    let tail = seq![
        (spec_connection_key(), spec_close_value()),
        (spec_proxy_connection_key(), spec_close_value()),
    ];
    let r1 = rewrite_headers_spec(hs, u);
    lemma_emit_req_concat(head + f, tail);
    lemma_emit_req_concat(head, f);
    lemma_emit_req_singleton((spec_host_key(), hv));
    assert(emit_req_headers(head) =~= head);
    assert(tail =~= seq![(spec_connection_key(), spec_close_value())] + seq![
        (spec_proxy_connection_key(), spec_close_value()),
    ]);
    lemma_emit_req_concat(
        seq![(spec_connection_key(), spec_close_value())],
        seq![(spec_proxy_connection_key(), spec_close_value())],
    );
    lemma_emit_req_singleton((spec_connection_key(), spec_close_value()));
    lemma_emit_req_singleton((spec_proxy_connection_key(), spec_close_value()));
    assert(emit_req_headers(tail) =~= seq![(spec_connection_key(), spec_close_value())]);
    lemma_filter_hop_clean(hs);
    lemma_emit_req_id(f);
    let last = seq![(spec_connection_key(), spec_close_value())];
    let e = emit_req_headers(r1);
    assert(e =~= head + f + last);
    assert(spec_host_key() != spec_connection_key());
    assert(spec_host_key() != spec_proxy_connection_key());
    assert(spec_connection_key() != spec_proxy_connection_key());
    lemma_count_key_singleton((spec_host_key(), hv), spec_host_key());
    lemma_count_key_singleton((spec_host_key(), hv), spec_proxy_connection_key());
    lemma_count_key_singleton((spec_host_key(), hv), spec_connection_key());
    lemma_count_key_singleton((spec_connection_key(), spec_close_value()), spec_host_key());
    lemma_count_key_singleton(
        (spec_connection_key(), spec_close_value()),
        spec_proxy_connection_key(),
    );
    lemma_count_key_singleton((spec_connection_key(), spec_close_value()), spec_connection_key());
    lemma_count_key_concat(head + f, last, spec_host_key());
    lemma_count_key_concat(head, f, spec_host_key());
    lemma_count_key_zero(f, spec_host_key());
    lemma_count_key_concat(head + f, last, spec_proxy_connection_key());
    lemma_count_key_concat(head, f, spec_proxy_connection_key());
    lemma_count_key_zero(f, spec_proxy_connection_key());
    lemma_count_key_concat(head + f, last, spec_connection_key());
    lemma_count_key_concat(head, f, spec_connection_key());
    lemma_count_key_zero(f, spec_connection_key());
    assert forall|i: int|
        0 <= i < e.len() && (#[trigger] e[i]).0 == spec_connection_key() implies e[i].1
        == spec_close_value() by {
        if i == 0 {
            assert(e[0] == head[0]);
        } else if i < 1 + f.len() {
            assert(e[i] == f[i - 1]);
            assert(!is_hop_key(f[i - 1].0));
        } else {
            assert(e[i] == last[0]);
        }
    }
}

pub proof fn lemma_count_key_singleton(h: (Seq<u8>, Seq<u8>), key: Seq<u8>)
    ensures
        count_key(seq![h], key) == if h.0 == key {
            1nat
        } else {
            0nat
        },
{
    assert(seq![h].drop_first() =~= Seq::<(Seq<u8>, Seq<u8>)>::empty());
    assert(count_key(Seq::<(Seq<u8>, Seq<u8>)>::empty(), key) == 0);
}

} // verus!
