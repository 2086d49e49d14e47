//! The line-level machinery shared by the request and the response codec:
//! header lines between CRLF terminators up to the empty line, their
//! serialization, header lookup, and decimal values.

use vstd::prelude::*;

use crate::lit::{lit_colon_sp, lit_crlf, spec_colon_sp, spec_crlf};
use crate::scan::{
    append_bytes, find_pair, find_pair_from, lemma_find_pair_from, lemma_find_pair_from_is,
    lemma_find_pair_from_is_none, pair_at, sub_vec,
};

verus! {

/// No carriage return and no line feed anywhere in `s`.
pub open spec fn no_crlf_bytes(s: Seq<u8>) -> bool {
    forall|i: int| 0 <= i < s.len() ==> s[i] != 13u8 && s[i] != 10u8
}

/// A start-line token: no space and no line break.
pub open spec fn is_token(s: Seq<u8>) -> bool {
    forall|i: int| 0 <= i < s.len() ==> s[i] != 32u8 && s[i] != 13u8 && s[i] != 10u8
}

/// A header pair that survives one serialize-parse round trip: no line
/// breaks on either side, and no `": "` inside the name.
pub open spec fn wf_header(h: (Seq<u8>, Seq<u8>)) -> bool {
    &&& no_crlf_bytes(h.0)
    &&& no_crlf_bytes(h.1)
    &&& find_pair_from(h.0, 58u8, 32u8, 0) == None::<int>
}

pub open spec fn wf_headers(hs: Seq<(Seq<u8>, Seq<u8>)>) -> bool {
    forall|i: int| 0 <= i < hs.len() ==> wf_header(#[trigger] hs[i])
}

/// One header line split at the first `": "`.
pub open spec fn parse_header_line(l: Seq<u8>) -> Option<(Seq<u8>, Seq<u8>)> {
    match find_pair_from(l, 58u8, 32u8, 0) {
        None => None,
        Some(i) => Some((l.subrange(0, i), l.subrange(i + 2, l.len() as int))),
    }
}

/// Header lines up to and including the empty line; what follows it is
/// handed back untouched. `None` when the block is incomplete or a line
/// has no `": "` separator.
pub open spec fn parse_header_block(b: Seq<u8>) -> Option<(Seq<(Seq<u8>, Seq<u8>)>, Seq<u8>)>
    decreases b.len(),
{
    match find_pair_from(b, 13u8, 10u8, 0) {
        None => None,
        Some(j) => if j == 0 {
            Some((Seq::empty(), b.subrange(2, b.len() as int)))
        } else if j < 0 || j + 2 > b.len() {
            None
        } else {
            match parse_header_line(b.subrange(0, j)) {
                None => None,
                Some(h) => match parse_header_block(b.subrange(j + 2, b.len() as int)) {
                    None => None,
                    Some((hs, rest)) => Some((seq![h] + hs, rest)),
                },
            }
        },
    }
}

/// The bytes of one header line.
pub open spec fn header_line_bytes(h: (Seq<u8>, Seq<u8>)) -> Seq<u8> {
    h.0 + spec_colon_sp() + h.1 + spec_crlf()
}

/// The bytes of a list of header lines, without the closing empty line.
pub open spec fn header_block_bytes(hs: Seq<(Seq<u8>, Seq<u8>)>) -> Seq<u8>
    decreases hs.len(),
{
    if hs.len() == 0 {
        Seq::empty()
    } else {
        header_line_bytes(hs[0]) + header_block_bytes(hs.drop_first())
    }
}

/// Value of the first header named `key`.
pub open spec fn header_lookup(hs: Seq<(Seq<u8>, Seq<u8>)>, key: Seq<u8>) -> Option<Seq<u8>>
    decreases hs.len(),
{
    if hs.len() == 0 {
        None
    } else if hs[0].0 == key {
        Some(hs[0].1)
    } else {
        header_lookup(hs.drop_first(), key)
    }
}

/// All bytes are decimal digits.
pub open spec fn is_digits(s: Seq<u8>) -> bool {
    forall|i: int| 0 <= i < s.len() ==> 48u8 <= #[trigger] s[i] <= 57u8
}

/// The number written in decimal in `s`.
pub open spec fn dec_val(s: Seq<u8>) -> nat
    decreases s.len(),
{
    if s.len() == 0 {
        0
    } else {
        dec_val(s.drop_last()) * 10 + (s.last() - 48u8) as nat
    }
}

// ---------------------------------------------------------------------------
// Lemmas
// ---------------------------------------------------------------------------

/// Searching from `c` in `b` is searching from 0 in the suffix at `c`.
pub proof fn lemma_find_pair_shift(b: Seq<u8>, x: u8, y: u8, c: int)
    requires
        0 <= c <= b.len(),
    ensures
        find_pair_from(b, x, y, c) == match find_pair_from(
            b.subrange(c, b.len() as int),
            x,
            y,
            0,
        ) {
            None => None::<int>,
            Some(j) => Some(c + j),
        },
{
    let suf = b.subrange(c, b.len() as int);
    lemma_find_pair_from(b, x, y, c);
    lemma_find_pair_from(suf, x, y, 0);
    assert forall|k: int| 0 <= k implies (pair_at(suf, x, y, k) <==> pair_at(
        b,
        x,
        y,
        c + k,
    )) by {
        if k + 2 <= suf.len() {
            assert(suf[k] == b[c + k]);
            assert(suf[k + 1] == b[c + k + 1]);
        }
    }
    match find_pair_from(suf, x, y, 0) {
        None => {
            assert forall|k: int| c <= k implies !pair_at(b, x, y, k) by {
                assert(!pair_at(suf, x, y, k - c));
            }
            lemma_find_pair_from_is_none(b, x, y, c);
        },
        Some(j) => {
            assert(pair_at(suf, x, y, j));
            assert(pair_at(b, x, y, c + j));
            assert forall|k: int| c <= k < c + j implies !pair_at(b, x, y, k) by {
                assert(!pair_at(suf, x, y, k - c));
            }
            lemma_find_pair_from_is(b, x, y, c, c + j);
        },
    }
}

/// In `l + CRLF + rest` with no line break inside `l`, the first CRLF
/// stands exactly at the end of `l`.
pub proof fn lemma_first_crlf_after_line(l: Seq<u8>, rest: Seq<u8>)
    requires
        no_crlf_bytes(l),
    ensures
        find_pair_from(l + spec_crlf() + rest, 13u8, 10u8, 0) == Some(l.len() as int),
        (l + spec_crlf() + rest).subrange(0, l.len() as int) == l,
        (l + spec_crlf() + rest).subrange(l.len() as int + 2, (l + spec_crlf() + rest).len() as int)
            == rest,
{
    let b = l + spec_crlf() + rest;
    assert(pair_at(b, 13u8, 10u8, l.len() as int));
    assert(forall|k: int| 0 <= k < l.len() ==> !pair_at(b, 13u8, 10u8, k));
    lemma_find_pair_from_is(b, 13u8, 10u8, 0, l.len() as int);
    assert(b.subrange(0, l.len() as int) =~= l);
    assert(b.subrange(l.len() as int + 2, b.len() as int) =~= rest);
}

/// A well-formed header line parses back to the header it came from.
pub proof fn lemma_header_line_round_trip(h: (Seq<u8>, Seq<u8>))
    requires
        wf_header(h),
    ensures
        parse_header_line(header_line_bytes(h).subrange(
            0,
            header_line_bytes(h).len() - 2,
        )) == Some(h),
        no_crlf_bytes(header_line_bytes(h).subrange(0, header_line_bytes(h).len() - 2)),
        header_line_bytes(h).len() >= 4,
{
    let full = header_line_bytes(h);
    let l = full.subrange(0, full.len() - 2);
    assert(l =~= h.0 + spec_colon_sp() + h.1);
    let i = h.0.len() as int;
    assert(pair_at(l, 58u8, 32u8, i));
    lemma_find_pair_from(h.0, 58u8, 32u8, 0);
    assert(forall|k: int| 0 <= k < i ==> !pair_at(l, 58u8, 32u8, k)) by {
        assert(forall|k: int| 0 <= k ==> !pair_at(h.0, 58u8, 32u8, k));
        assert(forall|k: int| 0 <= k < i - 1 ==> (pair_at(l, 58u8, 32u8, k) ==> pair_at(
            h.0,
            58u8,
            32u8,
            k,
        )));
        assert(l[i] == 58u8);
    }
    lemma_find_pair_from_is(l, 58u8, 32u8, 0, i);
    assert(l.subrange(0, i) =~= h.0);
    assert(l.subrange(i + 2, l.len() as int) =~= h.1);
}

/// A serialized well-formed header block, closed by its empty line,
/// parses back to the same headers, with the bytes after the empty line
/// untouched.
pub proof fn lemma_header_block_round_trip(hs: Seq<(Seq<u8>, Seq<u8>)>, body: Seq<u8>)
    requires
        wf_headers(hs),
    ensures
        parse_header_block(header_block_bytes(hs) + spec_crlf() + body) == Some((hs, body)),
    decreases hs.len(),
{
    let b = header_block_bytes(hs) + spec_crlf() + body;
    if hs.len() == 0 {
        assert(b =~= spec_crlf() + body);
        assert(pair_at(b, 13u8, 10u8, 0));
        lemma_find_pair_from_is(b, 13u8, 10u8, 0, 0);
        assert(b.subrange(2, b.len() as int) =~= body);
        assert(parse_header_block(b) == Some((Seq::<(Seq<u8>, Seq<u8>)>::empty(), body)));
        assert(Seq::<(Seq<u8>, Seq<u8>)>::empty() =~= hs);
    } else {
        let h = hs[0];
        assert(wf_header(h));
        lemma_header_line_round_trip(h);
        let full = header_line_bytes(h);
        let l = full.subrange(0, full.len() - 2);
        let rest = header_block_bytes(hs.drop_first()) + spec_crlf() + body;
        assert(b =~= l + spec_crlf() + rest);
        lemma_first_crlf_after_line(l, rest);
        let j = l.len() as int;
        assert(j > 0);
        assert(j + 2 <= b.len());
        assert(parse_header_line(b.subrange(0, j)) == Some(h));
        assert(forall|i: int| 0 <= i < hs.drop_first().len() ==> wf_header(
            #[trigger] hs.drop_first()[i],
        ));
        lemma_header_block_round_trip(hs.drop_first(), body);
        assert(b.subrange(j + 2, b.len() as int) == rest);
        assert(seq![h] + hs.drop_first() =~= hs);
    }
}

/// `header_block_bytes` distributes over appending one header.
pub proof fn lemma_header_block_bytes_push(hs: Seq<(Seq<u8>, Seq<u8>)>, h: (Seq<u8>, Seq<u8>))
    ensures
        header_block_bytes(hs.push(h)) == header_block_bytes(hs) + header_line_bytes(h),
    decreases hs.len(),
{
    if hs.len() == 0 {
        assert(hs.push(h)[0] == h);
        assert(hs.push(h).drop_first() =~= Seq::<(Seq<u8>, Seq<u8>)>::empty());
        assert(header_block_bytes(Seq::<(Seq<u8>, Seq<u8>)>::empty()) == Seq::<u8>::empty());
        assert(header_block_bytes(hs.push(h)) == header_line_bytes(h) + Seq::<u8>::empty());
        assert(header_block_bytes(hs.push(h)) =~= header_block_bytes(hs) + header_line_bytes(h));
    } else {
        assert(hs.push(h).drop_first() =~= hs.drop_first().push(h));
        assert(hs.push(h)[0] == hs[0]);
        lemma_header_block_bytes_push(hs.drop_first(), h);
        assert(header_block_bytes(hs.push(h)) == header_line_bytes(hs[0]) + (header_block_bytes(
            hs.drop_first(),
        ) + header_line_bytes(h)));
        assert(header_block_bytes(hs.push(h)) =~= header_block_bytes(hs) + header_line_bytes(h));
    }
}

/// The first header named `key` decides `header_lookup`.
pub proof fn lemma_header_lookup_first(hs: Seq<(Seq<u8>, Seq<u8>)>, key: Seq<u8>, i: int)
    requires
        0 <= i < hs.len(),
        hs[i].0 == key,
        forall|k: int| 0 <= k < i ==> hs[k].0 != key,
    ensures
        header_lookup(hs, key) == Some(hs[i].1),
    decreases i,
{
    if i > 0 {
        lemma_header_lookup_first(hs.drop_first(), key, i - 1);
    }
}

pub proof fn lemma_header_lookup_none(hs: Seq<(Seq<u8>, Seq<u8>)>, key: Seq<u8>)
    requires
        forall|k: int| 0 <= k < hs.len() ==> hs[k].0 != key,
    ensures
        header_lookup(hs, key) == None::<Seq<u8>>,
    decreases hs.len(),
{
    if hs.len() > 0 {
        lemma_header_lookup_none(hs.drop_first(), key);
    }
}

/// A decimal value never shrinks when more digits follow.
pub proof fn lemma_dec_val_prefix_le(s: Seq<u8>, j: int)
    requires
        0 <= j <= s.len(),
    ensures
        dec_val(s.subrange(0, j)) <= dec_val(s),
    decreases s.len() - j,
{
    if j == s.len() {
        assert(s.subrange(0, j) =~= s);
    } else {
        let t = s.subrange(0, s.len() - 1);
        assert(t =~= s.drop_last());
        assert(t.subrange(0, j) =~= s.subrange(0, j));
        lemma_dec_val_prefix_le(t, j);
        assert(dec_val(s) == dec_val(t) * 10 + (s.last() - 48u8) as nat);
        assert(dec_val(t) * 10 >= dec_val(t) * 1) by (nonlinear_arith);
    }
}

// ---------------------------------------------------------------------------
// Executable mirrors
// ---------------------------------------------------------------------------

/// One entry of a header vector, seen through the deep view.
pub proof fn lemma_header_at(hs: Vec<(Vec<u8>, Vec<u8>)>, i: int)
    requires
        0 <= i < hs@.len(),
    ensures
        hs.deep_view().len() == hs@.len(),
        hs.deep_view()[i].0 == hs@[i].0@,
        hs.deep_view()[i].1 == hs@[i].1@,
{
    assert(hs.deep_view()[i] == hs@[i].deep_view());
    assert(hs@[i].deep_view().0 =~= hs@[i].0@);
    assert(hs@[i].deep_view().1 =~= hs@[i].1@);
}

/// Appending a pair to a header vector appends it to the deep view.
pub proof fn lemma_headers_deep_view_push(
    hs: Vec<(Vec<u8>, Vec<u8>)>,
    old_hs: Vec<(Vec<u8>, Vec<u8>)>,
    h: (Vec<u8>, Vec<u8>),
)
    requires
        hs@ == old_hs@.push(h),
    ensures
        hs.deep_view() == old_hs.deep_view().push((h.0@, h.1@)),
{
    assert(hs.deep_view() =~~= old_hs.deep_view().push((h.0@, h.1@)));
}

/// Value of the first header named `key` in a header vector.
pub fn lookup_header<'a>(headers: &'a Vec<(Vec<u8>, Vec<u8>)>, key: &Vec<u8>) -> (r: Option<
    &'a Vec<u8>,
>)
    ensures
        match r {
            Some(v) => header_lookup(headers.deep_view(), key@) == Some(v@),
            None => header_lookup(headers.deep_view(), key@) == None::<Seq<u8>>,
        },
{
    let mut i: usize = 0;
    while i < headers.len()
        invariant
            i <= headers@.len(),
            forall|k: int| 0 <= k < i ==> (#[trigger] headers.deep_view()[k]).0 != key@,
        decreases headers@.len() - i,
    {
        proof {
            lemma_header_at(*headers, i as int);
        }
        if crate::scan::bytes_eq(&headers[i].0, key) {
            proof {
                lemma_header_lookup_first(headers.deep_view(), key@, i as int);
            }
            return Some(&headers[i].1);
        }
        i = i + 1;
    }
    proof {
        lemma_header_lookup_none(headers.deep_view(), key@);
    }
    None
}

/// Split one header line at its first `": "`.
pub fn split_header_line(l: &Vec<u8>) -> (r: Option<(Vec<u8>, Vec<u8>)>)
    ensures
        match r {
            Some(h) => parse_header_line(l@) == Some((h.0@, h.1@)),
            None => parse_header_line(l@) == None::<(Seq<u8>, Seq<u8>)>,
        },
{
    match find_pair(l, 58u8, 32u8, 0) {
        None => None,
        Some(i) => {
            let n = l.len();
            proof {
                lemma_find_pair_from(l@, 58u8, 32u8, 0);
                assert(pair_at(l@, 58u8, 32u8, i as int));
                assert(i + 2 <= n);
            }
            let k = sub_vec(l, 0, i);
            let v = sub_vec(l, i + 2, n);
            Some((k, v))
        },
    }
}

/// Read the header block of `b` that begins at `start`; return the headers
/// and the position right after the empty line.
pub fn read_header_block(b: &Vec<u8>, start: usize) -> (r: Option<
    (Vec<(Vec<u8>, Vec<u8>)>, usize),
>)
    requires
        start <= b@.len(),
    ensures
        match r {
            Some(p) => start <= p.1 <= b@.len() && parse_header_block(
                b@.subrange(start as int, b@.len() as int),
            ) == Some((p.0.deep_view(), b@.subrange(p.1 as int, b@.len() as int))),
            None => parse_header_block(b@.subrange(start as int, b@.len() as int))
                == None::<(Seq<(Seq<u8>, Seq<u8>)>, Seq<u8>)>,
        },
{
    let ghost whole = b@.subrange(start as int, b@.len() as int);
    let mut acc: Vec<(Vec<u8>, Vec<u8>)> = Vec::new();
    let mut c = start;
    loop
        invariant
            start <= c <= b@.len(),
            match parse_header_block(b@.subrange(c as int, b@.len() as int)) {
                None => parse_header_block(whole) == None::<(Seq<(Seq<u8>, Seq<u8>)>, Seq<u8>)>,
                Some(p) => parse_header_block(whole) == Some((acc.deep_view() + p.0, p.1)),
            },
            whole == b@.subrange(start as int, b@.len() as int),
        decreases b@.len() + 2 - c,
    {
        let ghost suf = b@.subrange(c as int, b@.len() as int);
        let found = find_pair(b, 13u8, 10u8, c);
        proof {
            lemma_find_pair_shift(b@, 13u8, 10u8, c as int);
        }
        match found {
            None => {
                proof {
                    assert(parse_header_block(suf) == None::<(
                        Seq<(Seq<u8>, Seq<u8>)>,
                        Seq<u8>,
                    )>);
                }
                return None;
            },
            Some(j) => {
                let n = b.len();
                proof {
                    lemma_find_pair_from(b@, 13u8, 10u8, c as int);
                    assert(pair_at(b@, 13u8, 10u8, j as int));
                    assert(c <= j && j + 2 <= n);
                    assert(find_pair_from(suf, 13u8, 10u8, 0) == Some(j - c as int));
                }
                if j == c {
                    proof {
                        assert(suf.subrange(2, suf.len() as int) =~= b@.subrange(
                            c + 2 as int,
                            b@.len() as int,
                        ));
                        assert(parse_header_block(suf) == Some((
                            Seq::<(Seq<u8>, Seq<u8>)>::empty(),
                            b@.subrange(c + 2 as int, b@.len() as int),
                        )));
                        assert(acc.deep_view() + Seq::<(Seq<u8>, Seq<u8>)>::empty()
                            =~= acc.deep_view());
                    }
                    return Some((acc, c + 2));
                }
                let line = sub_vec(b, c, j);
                proof {
                    assert(line@ =~= suf.subrange(0, j - c as int));
                }
                match split_header_line(&line) {
                    None => {
                        proof {
                            assert(parse_header_block(suf) == None::<(
                                Seq<(Seq<u8>, Seq<u8>)>,
                                Seq<u8>,
                            )>);
                        }
                        return None;
                    },
                    Some(h) => {
                        proof {
                            assert(suf.subrange(j - c + 2 as int, suf.len() as int)
                                =~= b@.subrange(j + 2 as int, b@.len() as int));
                        }
                        let ghost old_acc = acc;
                        let ghost hv = (h.0@, h.1@);
                        acc.push(h);
                        proof {
                            lemma_headers_deep_view_push(acc, old_acc, (h.0, h.1));
                            let next = b@.subrange(j + 2 as int, b@.len() as int);
                            match parse_header_block(next) {
                                None => {
                                    assert(parse_header_block(suf) == None::<(
                                        Seq<(Seq<u8>, Seq<u8>)>,
                                        Seq<u8>,
                                    )>);
                                },
                                Some(p) => {
                                    assert(parse_header_block(suf) == Some((
                                        seq![hv] + p.0,
                                        p.1,
                                    )));
                                    assert(old_acc.deep_view() + (seq![hv] + p.0)
                                        =~= acc.deep_view() + p.0);
                                },
                            }
                        }
                        c = j + 2;
                    },
                }
            },
        }
    }
}

/// Serialize `headers` as header lines appended to `out`.
pub fn write_header_lines(out: &mut Vec<u8>, headers: &Vec<(Vec<u8>, Vec<u8>)>)
    ensures
        final(out)@ == old(out)@ + header_block_bytes(headers.deep_view()),
{
    let mut i: usize = 0;
    while i < headers.len()
        invariant
            i <= headers@.len(),
            out@ == old(out)@ + header_block_bytes(headers.deep_view().subrange(0, i as int)),
        decreases headers@.len() - i,
    {
        let ghost pre = headers.deep_view().subrange(0, i as int);
        append_bytes(out, &headers[i].0);
        let cs = lit_colon_sp();
        append_bytes(out, &cs);
        append_bytes(out, &headers[i].1);
        let cr = lit_crlf();
        append_bytes(out, &cr);
        proof {
            lemma_header_block_bytes_push(pre, (headers@[i as int].0@, headers@[i as int].1@));
            assert(pre.push((headers@[i as int].0@, headers@[i as int].1@))
                =~~= headers.deep_view().subrange(0, i + 1 as int));
            assert(out@ =~= old(out)@ + header_block_bytes(
                headers.deep_view().subrange(0, i + 1 as int),
            ));
        }
        i = i + 1;
    }
    proof {
        assert(headers.deep_view().subrange(0, headers.deep_view().len() as int)
            =~= headers.deep_view());
    }
}

/// Parse `v` as a decimal number that fits a `usize`.
pub fn parse_dec(v: &Vec<u8>) -> (r: Option<usize>)
    ensures
        match r {
            Some(n) => is_digits(v@) && v@.len() > 0 && dec_val(v@) == n as nat,
            None => !(is_digits(v@) && v@.len() > 0 && dec_val(v@) <= usize::MAX as nat),
        },
{
    if v.len() == 0 {
        return None;
    }
    let mut acc: usize = 0;
    let mut i: usize = 0;
    while i < v.len()
        invariant
            i <= v@.len(),
            v@.len() > 0,
            forall|k: int| 0 <= k < i ==> 48u8 <= #[trigger] v@[k] <= 57u8,
            acc as nat == dec_val(v@.subrange(0, i as int)),
        decreases v@.len() - i,
    {
        let d = v[i];
        if d < 48 || d > 57 {
            return None;
        }
        let dv = (d - 48) as usize;
        if acc > (usize::MAX - dv) / 10 {
            proof {
                assert(v@.subrange(0, i + 1 as int).drop_last() =~= v@.subrange(0, i as int));
                assert(dec_val(v@.subrange(0, i + 1 as int)) > usize::MAX as nat) by {
                    assert(acc * 10 + dv > usize::MAX) by (nonlinear_arith)
                        requires
                            acc > (usize::MAX - dv) / 10,
                            0 <= dv <= 9,
                    ;
                };
                lemma_dec_val_prefix_le(v@, i + 1 as int);
                assert(v@.subrange(0, v@.len() as int) =~= v@);
            }
            return None;
        }
        proof {
            assert(v@.subrange(0, i + 1 as int).drop_last() =~= v@.subrange(0, i as int));
            assert(acc * 10 + dv <= usize::MAX) by (nonlinear_arith)
                requires
                    acc <= (usize::MAX - dv) / 10,
                    0 <= dv <= 9,
            ;
        }
        acc = acc * 10 + dv;
        i = i + 1;
    }
    proof {
        assert(v@.subrange(0, v@.len() as int) =~= v@);
    }
    Some(acc)
}

} // verus!
