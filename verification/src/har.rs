//! HAR 1.2 export: renders a record and its resolved bodies as the standard
//! `log`/`creator`/`entries` JSON document.

use crate::body::BodyView;
use crate::headers::{spec_get_header_value, Header, Headers};
use crate::json::{push_json_escaped, push_json_escaped_bytes, push_json_str, spec_escape,
    spec_json_str};
use crate::outside::{cookie_parse_of, format_rfc3339, parse_set_cookie, rfc3339_of,
    url_query_of, url_query_pairs};
use crate::strbytes::{
    bytes_into_string, eq_bytes, find_byte, lemma_find, lemma_skip_after_ascii,
    lemma_split_pieces_valid, lemma_take_valid, lemma_trim_valid, lit, push_dec_i128,
    push_dec_u64, push_join, push_str_bytes, spec_dec, spec_dec_int, spec_find, spec_join,
    spec_split, spec_trim, split_bytes, trim_bytes,
};
use crate::traffic::Traffic;
use vstd::prelude::*;
use vstd::slice::slice_subrange;
use vstd::utf8::{encode_utf8, valid_utf8, valid_utf8_concat};

verus! {

/// A rendered `{"name": …, "value": …}` object around escaped content.
pub open spec fn spec_nv_obj(name: Seq<u8>, value: Seq<u8>) -> Seq<u8> {
    lit("{\"name\": \"") + name + lit("\", \"value\": \"") + value + lit("\"}")
}

/// The name/value objects for a header list.
pub open spec fn spec_headers_nv(items: Seq<Header>) -> Seq<Seq<u8>>
    decreases items.len(),
{
    if items.len() == 0 {
        Seq::empty()
    } else {
        spec_headers_nv(items.drop_last()).push(
            spec_nv_obj(
                spec_escape(encode_utf8(items.last().name@)),
                spec_escape(encode_utf8(items.last().value@)),
            ),
        )
    }
}

/// The HAR `headers` array of a header collection.
pub open spec fn spec_har_headers(headers: Option<Headers>) -> Seq<u8> {
    match headers {
        Option::None => lit("[]"),
        Option::Some(h) => lit("[") + spec_join(spec_headers_nv(h.items@), lit(", ")) + lit("]"),
    }
}

fn nv_piece_str(name: &str, value: &str) -> (r: Vec<u8>)
    ensures
        r@ == spec_nv_obj(spec_escape(encode_utf8(name@)), spec_escape(encode_utf8(value@))),
        valid_utf8(r@),
{
    let mut p: Vec<u8> = Vec::new();
    assert(valid_utf8(p@));
    push_str_bytes(&mut p, "{\"name\": \"");
    push_json_escaped(&mut p, name);
    push_str_bytes(&mut p, "\", \"value\": \"");
    push_json_escaped(&mut p, value);
    push_str_bytes(&mut p, "\"}");
    assert(p@ =~= spec_nv_obj(spec_escape(encode_utf8(name@)), spec_escape(encode_utf8(value@))));
    p
}

/// Renders the HAR `headers` array.
pub fn har_headers(headers: &Option<Headers>) -> (r: String)
    ensures
        encode_utf8(r@) == spec_har_headers(*headers),
{
    let mut out: Vec<u8> = Vec::new();
    assert(valid_utf8(out@));
    push_har_headers(&mut out, headers);
    bytes_into_string(out)
}

/// Appends the HAR `headers` array.
pub fn push_har_headers(out: &mut Vec<u8>, headers: &Option<Headers>)
    requires
        valid_utf8(old(out)@),
    ensures
        final(out)@ == old(out)@ + spec_har_headers(*headers),
        valid_utf8(final(out)@),
{
    if headers.is_none() {
        push_str_bytes(out, "[]");
        assert(final(out)@ =~= old(out)@ + spec_har_headers(*headers));
        return ;
    }
    let h: &Headers = headers.as_ref().unwrap();
    let ghost items = h.items@;
    let mut pieces: Vec<Vec<u8>> = Vec::new();
    let mut i: usize = 0;
    assert(items.take(0) =~= Seq::<Header>::empty());
    assert(pieces@.map_values(|p: Vec<u8>| p@) =~= spec_headers_nv(items.take(0)));
    while i < h.items.len()
        invariant
            0 <= i <= items.len(),
            items == h.items@,
            pieces@.map_values(|p: Vec<u8>| p@) == spec_headers_nv(items.take(i as int)),
            forall|j: int| 0 <= j < pieces@.len() ==> valid_utf8(#[trigger] pieces@[j]@),
        decreases items.len() - i,
    {
        let hd = &h.items[i];
        let p = nv_piece_str(hd.name.as_str(), hd.value.as_str());
        pieces.push(p);
        proof {
            assert(items.take(i + 1).drop_last() =~= items.take(i as int));
            assert(items.take(i + 1).last() == items[i as int]);
            assert(pieces@.map_values(|p: Vec<u8>| p@) =~= spec_headers_nv(items.take(i + 1)));
        }
        i += 1;
    }
    assert(items.take(items.len() as int) =~= items);
    push_str_bytes(out, "[");
    push_join(out, &pieces, ", ");
    push_str_bytes(out, "]");
    assert(final(out)@ =~= old(out)@ + spec_har_headers(*headers));
}

/// The name/value objects for percent-decoded query pairs.
pub open spec fn spec_pairs_nv(q: Seq<(Seq<char>, Seq<char>)>) -> Seq<Seq<u8>>
    decreases q.len(),
{
    if q.len() == 0 {
        Seq::empty()
    } else {
        spec_pairs_nv(q.drop_last()).push(
            spec_nv_obj(
                spec_escape(encode_utf8(q.last().0)),
                spec_escape(encode_utf8(q.last().1)),
            ),
        )
    }
}

/// The HAR `queryString` array of a request URI: its parsed name/value
/// pairs, or empty when the URI does not parse.
pub open spec fn spec_har_query(uri: Seq<char>) -> Seq<u8> {
    match url_query_of(uri) {
        Option::None => lit("[]"),
        Option::Some(q) => lit("[") + spec_join(spec_pairs_nv(q), lit(", ")) + lit("]"),
    }
}

/// Appends the HAR `queryString` array.
pub fn push_har_query(out: &mut Vec<u8>, uri: &str)
    requires
        valid_utf8(old(out)@),
    ensures
        final(out)@ == old(out)@ + spec_har_query(uri@),
        valid_utf8(final(out)@),
{
    match url_query_pairs(uri) {
        Option::None => {
            push_str_bytes(out, "[]");
            assert(final(out)@ =~= old(out)@ + spec_har_query(uri@));
        },
        Option::Some(v) => {
            let ghost q = v@.map_values(|p: (String, String)| (p.0@, p.1@));
            let mut pieces: Vec<Vec<u8>> = Vec::new();
            let mut i: usize = 0;
            assert(q.take(0) =~= Seq::<(Seq<char>, Seq<char>)>::empty());
            assert(pieces@.map_values(|p: Vec<u8>| p@) =~= spec_pairs_nv(q.take(0)));
            while i < v.len()
                invariant
                    0 <= i <= v@.len(),
                    q == v@.map_values(|p: (String, String)| (p.0@, p.1@)),
                    q.len() == v@.len(),
                    pieces@.map_values(|p: Vec<u8>| p@) == spec_pairs_nv(q.take(i as int)),
                    forall|j: int| 0 <= j < pieces@.len() ==> valid_utf8(#[trigger] pieces@[j]@),
                decreases v@.len() - i,
            {
                let pair = &v[i];
                let p = nv_piece_str(pair.0.as_str(), pair.1.as_str());
                pieces.push(p);
                proof {
                    assert(q.take(i + 1).drop_last() =~= q.take(i as int));
                    assert(q.take(i + 1).last() == q[i as int]);
                    assert(q[i as int] == (v@[i as int].0@, v@[i as int].1@));
                    assert(pieces@.map_values(|p: Vec<u8>| p@) =~= spec_pairs_nv(q.take(i + 1)));
                }
                i += 1;
            }
            assert(q.take(q.len() as int) =~= q);
            push_str_bytes(out, "[");
            push_join(out, &pieces, ", ");
            push_str_bytes(out, "]");
            assert(final(out)@ =~= old(out)@ + spec_har_query(uri@));
        },
    }
}

/// The cookie objects parsed out of one `cookie` header value: pieces split
/// at `;`, trimmed of ASCII whitespace, and split at the first `=` (pieces
/// without `=` dropped).
pub open spec fn spec_cookie_pieces(pieces: Seq<Seq<u8>>) -> Seq<Seq<u8>>
    decreases pieces.len(),
{
    if pieces.len() == 0 {
        Seq::empty()
    } else {
        let rest = spec_cookie_pieces(pieces.drop_last());
        let t = spec_trim(pieces.last());
        let i = spec_find(t, 0x3d);
        if i < t.len() {
            rest.push(spec_nv_obj(spec_escape(t.take(i)), spec_escape(t.skip(i + 1))))
        } else {
            rest
        }
    }
}

/// The request cookie objects of a header list: every `cookie` header's
/// value contributes its pieces, in order.
pub open spec fn spec_req_cookie_objs(items: Seq<Header>) -> Seq<Seq<u8>>
    decreases items.len(),
{
    if items.len() == 0 {
        Seq::empty()
    } else {
        let rest = spec_req_cookie_objs(items.drop_last());
        if encode_utf8(items.last().name@) == lit("cookie") {
            rest + spec_cookie_pieces(spec_split(encode_utf8(items.last().value@), 0x3b))
        } else {
            rest
        }
    }
}

/// The HAR `request.cookies` array.
pub open spec fn spec_har_req_cookies(headers: Option<Headers>) -> Seq<u8> {
    match headers {
        Option::None => lit("[]"),
        Option::Some(h) => lit("[") + spec_join(spec_req_cookie_objs(h.items@), lit(", "))
            + lit("]"),
    }
}

fn cookie_value_pieces(value: &str) -> (r: Vec<Vec<u8>>)
    ensures
        r@.map_values(|p: Vec<u8>| p@) == spec_cookie_pieces(
            spec_split(encode_utf8(value@), 0x3b),
        ),
        forall|j: int| 0 <= j < r@.len() ==> valid_utf8(#[trigger] r@[j]@),
{
    let vb = value.as_bytes();
    proof {
        vstd::utf8::encode_utf8_valid_utf8(value@);
        lemma_split_pieces_valid(vb@, 0x3b);
    }
    let parts = split_bytes(vb, 0x3b);
    let ghost pieces = parts@.map_values(|p: Vec<u8>| p@);
    let mut r: Vec<Vec<u8>> = Vec::new();
    let mut i: usize = 0;
    assert(pieces.take(0) =~= Seq::<Seq<u8>>::empty());
    assert(r@.map_values(|p: Vec<u8>| p@) =~= spec_cookie_pieces(pieces.take(0)));
    while i < parts.len()
        invariant
            0 <= i <= parts@.len(),
            pieces == parts@.map_values(|p: Vec<u8>| p@),
            pieces.len() == parts@.len(),
            pieces == spec_split(encode_utf8(value@), 0x3b),
            forall|j: int| 0 <= j < pieces.len() ==> valid_utf8(#[trigger] pieces[j]),
            r@.map_values(|p: Vec<u8>| p@) == spec_cookie_pieces(pieces.take(i as int)),
            forall|j: int| 0 <= j < r@.len() ==> valid_utf8(#[trigger] r@[j]@),
        decreases parts@.len() - i,
    {
        proof {
            assert(pieces.take(i + 1).drop_last() =~= pieces.take(i as int));
            assert(pieces.take(i + 1).last() == pieces[i as int]);
        }
        let piece = &parts[i];
        let t = trim_bytes(piece.as_slice());
        proof {
            lemma_trim_valid(pieces[i as int]);
            lemma_find(t@, 0x3d);
        }
        let eqpos = find_byte(t.as_slice(), 0x3d);
        if eqpos < t.len() {
            let name = slice_subrange(t.as_slice(), 0, eqpos);
            let val = slice_subrange(t.as_slice(), eqpos + 1, t.len());
            assert(name@ =~= t@.take(eqpos as int));
            assert(val@ =~= t@.skip(eqpos + 1));
            proof {
                lemma_take_valid(t@, eqpos as int);
                lemma_skip_after_ascii(t@, eqpos as int);
            }
            let mut p: Vec<u8> = Vec::new();
            assert(valid_utf8(p@));
            push_str_bytes(&mut p, "{\"name\": \"");
            push_json_escaped_bytes(&mut p, name);
            push_str_bytes(&mut p, "\", \"value\": \"");
            push_json_escaped_bytes(&mut p, val);
            push_str_bytes(&mut p, "\"}");
            assert(p@ =~= spec_nv_obj(spec_escape(t@.take(eqpos as int)), spec_escape(t@.skip(
                eqpos + 1))));
            r.push(p);
            assert(r@.map_values(|p: Vec<u8>| p@) =~= spec_cookie_pieces(pieces.take(i + 1)));
        } else {
            assert(r@.map_values(|p: Vec<u8>| p@) =~= spec_cookie_pieces(pieces.take(i + 1)));
        }
        i += 1;
    }
    assert(pieces.take(pieces.len() as int) =~= pieces);
    r
}

/// Appends the HAR `request.cookies` array.
pub fn push_har_req_cookies(out: &mut Vec<u8>, headers: &Option<Headers>)
    requires
        valid_utf8(old(out)@),
    ensures
        final(out)@ == old(out)@ + spec_har_req_cookies(*headers),
        valid_utf8(final(out)@),
{
    if headers.is_none() {
        push_str_bytes(out, "[]");
        assert(final(out)@ =~= old(out)@ + spec_har_req_cookies(*headers));
        return ;
    }
    let h: &Headers = headers.as_ref().unwrap();
    let ghost items = h.items@;
    let mut pieces: Vec<Vec<u8>> = Vec::new();
    let mut i: usize = 0;
    assert(items.take(0) =~= Seq::<Header>::empty());
    assert(pieces@.map_values(|p: Vec<u8>| p@) =~= spec_req_cookie_objs(items.take(0)));
    while i < h.items.len()
        invariant
            0 <= i <= items.len(),
            items == h.items@,
            pieces@.map_values(|p: Vec<u8>| p@) == spec_req_cookie_objs(items.take(i as int)),
            forall|j: int| 0 <= j < pieces@.len() ==> valid_utf8(#[trigger] pieces@[j]@),
        decreases items.len() - i,
    {
        let hd = &h.items[i];
        proof {
            assert(items.take(i + 1).drop_last() =~= items.take(i as int));
            assert(items.take(i + 1).last() == items[i as int]);
        }
        if eq_bytes(hd.name.as_str().as_bytes(), "cookie".as_bytes()) {
            let mut vals = cookie_value_pieces(hd.value.as_str());
            let ghost valsv = vals@;
            pieces.append(&mut vals);
            assert(pieces@.map_values(|p: Vec<u8>| p@) =~= spec_req_cookie_objs(items.take(i + 1)));
        } else {
            assert(pieces@.map_values(|p: Vec<u8>| p@) =~= spec_req_cookie_objs(items.take(i + 1)));
        }
        i += 1;
    }
    assert(items.take(items.len() as int) =~= items);
    push_str_bytes(out, "[");
    push_join(out, &pieces, ", ");
    push_str_bytes(out, "]");
    assert(final(out)@ =~= old(out)@ + spec_har_req_cookies(*headers));
}

/// One response cookie object, from what the cookie crate parsed out of a
/// `set-cookie` value; optional attributes appear only when parsed, and a
/// fixed expiry only when it lies in the formatter's supported range.
/// A rendered string attribute: its label, the escaped text, a closing
/// quote.
pub open spec fn spec_attr(pre: &str, v: Seq<char>) -> Seq<u8> {
    lit(pre) + spec_escape(encode_utf8(v)) + lit("\"")
}

/// A rendered boolean attribute: its label and `true` or `false`.
pub open spec fn spec_bool_attr(pre: &str, b: bool) -> Seq<u8> {
    lit(pre) + (if b {
        lit("true")
    } else {
        lit("false")
    })
}

pub open spec fn spec_res_cookie_obj(
    c: (
        Seq<char>,
        Seq<char>,
        Option<Seq<char>>,
        Option<Seq<char>>,
        Option<int>,
        Option<bool>,
        Option<bool>,
    ),
) -> Seq<u8> {
    spec_attr("{\"name\": \"", c.0) + spec_attr(", \"value\": \"", c.1) + (match c.2 {
        Option::Some(p) => spec_attr(", \"path\": \"", p),
        Option::None => Seq::<u8>::empty(),
    }) + (match c.3 {
        Option::Some(d) => spec_attr(", \"domain\": \"", d),
        Option::None => Seq::<u8>::empty(),
    }) + (match c.4 {
        Option::Some(n) => if 0 <= n < 4_000_000_000_000_000_000 {
            spec_attr(", \"expires\": \"", rfc3339_of(n))
        } else {
            Seq::<u8>::empty()
        },
        Option::None => Seq::<u8>::empty(),
    }) + (match c.5 {
        Option::Some(b) => spec_bool_attr(", \"httpOnly\": ", b),
        Option::None => Seq::<u8>::empty(),
    }) + (match c.6 {
        Option::Some(b) => spec_bool_attr(", \"secure\": ", b),
        Option::None => Seq::<u8>::empty(),
    }) + lit("}")
}

fn push_attr(out: &mut Vec<u8>, pre: &str, v: &str)
    requires
        valid_utf8(old(out)@),
    ensures
        final(out)@ == old(out)@ + spec_attr(pre, v@),
        valid_utf8(final(out)@),
{
    push_str_bytes(out, pre);
    push_json_escaped(out, v);
    push_str_bytes(out, "\"");
    assert(final(out)@ =~= old(out)@ + spec_attr(pre, v@));
}

fn push_bool_attr(out: &mut Vec<u8>, pre: &str, b: bool)
    requires
        valid_utf8(old(out)@),
    ensures
        final(out)@ == old(out)@ + spec_bool_attr(pre, b),
        valid_utf8(final(out)@),
{
    push_str_bytes(out, pre);
    push_str_bytes(out, if b {
        "true"
    } else {
        "false"
    });
    assert(final(out)@ =~= old(out)@ + spec_bool_attr(pre, b));
}

/// The response cookie objects of a header list: every `set-cookie` header
/// that the cookie crate can parse, in order.
pub open spec fn spec_res_cookie_objs(items: Seq<Header>) -> Seq<Seq<u8>>
    decreases items.len(),
{
    if items.len() == 0 {
        Seq::empty()
    } else {
        let rest = spec_res_cookie_objs(items.drop_last());
        if encode_utf8(items.last().name@) == lit("set-cookie") {
            match cookie_parse_of(items.last().value@) {
                Option::Some(c) => rest.push(spec_res_cookie_obj(c)),
                Option::None => rest,
            }
        } else {
            rest
        }
    }
}

/// The HAR `response.cookies` array.
pub open spec fn spec_har_res_cookies(headers: Option<Headers>) -> Seq<u8> {
    match headers {
        Option::None => lit("[]"),
        Option::Some(h) => lit("[") + spec_join(spec_res_cookie_objs(h.items@), lit(", "))
            + lit("]"),
    }
}

fn res_cookie_piece(raw: &str) -> (r: Option<Vec<u8>>)
    ensures
        r is Some <==> cookie_parse_of(raw@) is Some,
        r matches Some(p) ==> cookie_parse_of(raw@) matches Some(c) && p@ == spec_res_cookie_obj(
            c,
        ) && valid_utf8(p@),
{
    let parsed = parse_set_cookie(raw);
    match parsed {
        Option::None => Option::None,
        Option::Some(t) => {
            let mut p: Vec<u8> = Vec::new();
            assert(valid_utf8(p@));
            push_attr(&mut p, "{\"name\": \"", t.0.as_str());
            push_attr(&mut p, ", \"value\": \"", t.1.as_str());
            match &t.2 {
                Option::Some(path) => push_attr(&mut p, ", \"path\": \"", path.as_str()),
                Option::None => {},
            }
            match &t.3 {
                Option::Some(domain) => push_attr(&mut p, ", \"domain\": \"", domain.as_str()),
                Option::None => {},
            }
            match t.4 {
                Option::Some(nanos) => {
                    if 0 <= nanos && nanos < 4_000_000_000_000_000_000i128 {
                        match format_rfc3339(nanos) {
                            Option::Some(st) => push_attr(&mut p, ", \"expires\": \"",
                                st.as_str()),
                            Option::None => {
                                proof {
                                    assert(false);
                                }
                            },
                        }
                    }
                },
                Option::None => {},
            }
            match t.5 {
                Option::Some(b) => push_bool_attr(&mut p, ", \"httpOnly\": ", b),
                Option::None => {},
            }
            match t.6 {
                Option::Some(b) => push_bool_attr(&mut p, ", \"secure\": ", b),
                Option::None => {},
            }
            push_str_bytes(&mut p, "}");
            proof {
                let c = cookie_parse_of(raw@)->Some_0;
                assert(p@ =~= spec_res_cookie_obj(c));
            }
            Option::Some(p)
        },
    }
}

/// Appends the HAR `response.cookies` array.
pub fn push_har_res_cookies(out: &mut Vec<u8>, headers: &Option<Headers>)
    requires
        valid_utf8(old(out)@),
    ensures
        final(out)@ == old(out)@ + spec_har_res_cookies(*headers),
        valid_utf8(final(out)@),
{
    if headers.is_none() {
        push_str_bytes(out, "[]");
        assert(final(out)@ =~= old(out)@ + spec_har_res_cookies(*headers));
        return ;
    }
    let h: &Headers = headers.as_ref().unwrap();
    let ghost items = h.items@;
    let mut pieces: Vec<Vec<u8>> = Vec::new();
    let mut i: usize = 0;
    assert(items.take(0) =~= Seq::<Header>::empty());
    assert(pieces@.map_values(|p: Vec<u8>| p@) =~= spec_res_cookie_objs(items.take(0)));
    while i < h.items.len()
        invariant
            0 <= i <= items.len(),
            items == h.items@,
            pieces@.map_values(|p: Vec<u8>| p@) == spec_res_cookie_objs(items.take(i as int)),
            forall|j: int| 0 <= j < pieces@.len() ==> valid_utf8(#[trigger] pieces@[j]@),
        decreases items.len() - i,
    {
        let hd = &h.items[i];
        proof {
            assert(items.take(i + 1).drop_last() =~= items.take(i as int));
            assert(items.take(i + 1).last() == items[i as int]);
        }
        if eq_bytes(hd.name.as_str().as_bytes(), "set-cookie".as_bytes()) {
            match res_cookie_piece(hd.value.as_str()) {
                Option::Some(p) => {
                    pieces.push(p);
                    assert(pieces@.map_values(|p: Vec<u8>| p@) =~= spec_res_cookie_objs(
                        items.take(i + 1)));
                },
                Option::None => {
                    assert(pieces@.map_values(|p: Vec<u8>| p@) =~= spec_res_cookie_objs(
                        items.take(i + 1)));
                },
            }
        } else {
            assert(pieces@.map_values(|p: Vec<u8>| p@) =~= spec_res_cookie_objs(items.take(i + 1)));
        }
        i += 1;
    }
    assert(items.take(items.len() as int) =~= items);
    push_str_bytes(out, "[");
    push_join(out, &pieces, ", ");
    push_str_bytes(out, "]");
    assert(final(out)@ =~= old(out)@ + spec_har_res_cookies(*headers));
}

/// The raw `content-type` value of a header collection, empty when absent.
pub open spec fn spec_content_type(headers: Option<Headers>) -> Seq<u8> {
    match spec_get_header_value(headers, lit("content-type")) {
        Option::None => Seq::<u8>::empty(),
        Option::Some(v) => v,
    }
}

/// The HAR `request.postData` object: the content type and the resolved
/// request body text (empty when absent).
pub open spec fn spec_har_req_body(rq: Option<BodyView>, headers: Option<Headers>) -> Seq<u8> {
    lit("{\"mimeType\": \"") + spec_escape(spec_content_type(headers)) + lit("\", \"text\": \"")
        + (match rq {
        Option::Some(b) => spec_escape(encode_utf8(b.value)),
        Option::None => Seq::<u8>::empty(),
    }) + lit("\"}")
}

/// The HAR `response.content` object: raw size, content type and resolved
/// text, with a base64 marker for binary bodies and the compression delta.
pub open spec fn spec_har_res_body(
    rs: Option<BodyView>,
    raw_size: u64,
    headers: Option<Headers>,
) -> Seq<u8> {
    match rs {
        Option::Some(b) => lit("{\"size\": ") + spec_dec(raw_size as nat) + lit(
            ", \"mimeType\": \"",
        ) + spec_escape(spec_content_type(headers)) + lit("\", \"text\": \"") + spec_escape(
            encode_utf8(b.value),
        ) + lit("\"") + (if b.encode == "utf8"@ {
            Seq::<u8>::empty()
        } else {
            lit(", \"encoding\": \"base64\"")
        }) + lit(", \"compression\": ") + spec_dec_int(b.size - raw_size) + lit("}"),
        Option::None => lit("{\"size\": 0, \"mimeType\": \"") + spec_escape(
            spec_content_type(headers),
        ) + lit("\", \"text\": \"\"}"),
    }
}

/// A rendered optional timestamp: the RFC 3339 text as a JSON string when
/// set and within the formatter's range, `null` otherwise.
pub open spec fn spec_time_str(o: Option<u64>) -> Seq<u8> {
    match o {
        Option::Some(s) => if s < 4_000_000_000_000_000_000u64 {
            seq![0x22u8] + spec_escape(encode_utf8(rfc3339_of(s as int))) + seq![0x22u8]
        } else {
            lit("null")
        },
        Option::None => lit("null"),
    }
}

/// Appends an optional timestamp as RFC 3339 text or `null`.
pub fn push_time_str(out: &mut Vec<u8>, o: Option<u64>)
    requires
        valid_utf8(old(out)@),
    ensures
        final(out)@ == old(out)@ + spec_time_str(o),
        valid_utf8(final(out)@),
{
    match o {
        Option::Some(s) => {
            if s < 4_000_000_000_000_000_000u64 {
                match format_rfc3339(s as i128) {
                    Option::Some(st) => {
                        crate::strbytes::push_ascii(out, 0x22);
                        push_json_escaped(out, st.as_str());
                        crate::strbytes::push_ascii(out, 0x22);
                        assert(final(out)@ =~= old(out)@ + spec_time_str(o));
                    },
                    Option::None => {
                        proof {
                            assert(false);
                        }
                    },
                }
            } else {
                push_str_bytes(out, "null");
            }
        },
        Option::None => {
            push_str_bytes(out, "null");
        },
    }
}

/// The `time` field of an entry: elapsed milliseconds, `-1` when unknown.
pub open spec fn spec_har_time(t: Traffic) -> Seq<u8> {
    match (t.start_time, t.end_time) {
        (Option::Some(s), Option::Some(e)) => spec_dec(((((e - s) as u64)
            / 1_000_000) as u64) as nat),
        _ => lit("-1"),
    }
}

/// The `httpVersion` field: the recorded text, an empty string when unset.
pub open spec fn spec_har_version(t: Traffic) -> Seq<u8> {
    match t.http_version {
        Option::Some(v) => spec_json_str(v@),
        Option::None => lit("\"\""),
    }
}

/// The method, url and version fields of a rendered `request` object.
pub open spec fn spec_har_request_line(t: Traffic) -> Seq<u8> {
    lit("{\n        \"method\": ") + spec_json_str(t.method@) + lit(",\n        \"url\": ")
        + spec_json_str(t.uri@) + lit(",\n        \"httpVersion\": ") + spec_har_version(t)
}

/// The cookie and header arrays of a rendered `request` object.
pub open spec fn spec_har_request_lists(t: Traffic) -> Seq<u8> {
    lit(",\n        \"cookies\": ") + spec_har_req_cookies(t.req_headers) + lit(
        ",\n        \"headers\": ",
    ) + spec_har_headers(t.req_headers)
}

/// The first half of a rendered `request` object.
pub open spec fn spec_har_request_head(t: Traffic) -> Seq<u8> {
    spec_har_request_line(t) + spec_har_request_lists(t)
}

/// The query and body fields of a rendered `request` object.
pub open spec fn spec_har_request_data(t: Traffic, rq: Option<BodyView>) -> Seq<u8> {
    lit(",\n        \"queryString\": ") + spec_har_query(t.uri@) + lit(
        ",\n        \"postData\": ",
    ) + spec_har_req_body(rq, t.req_headers)
}

/// The size fields of a rendered `request` object.
pub open spec fn spec_har_request_sizes(t: Traffic, rq: Option<BodyView>) -> Seq<u8> {
    lit(",\n        \"headersSize\": ") + (match t.req_headers {
        Option::Some(h) => spec_dec(h.size as nat),
        Option::None => lit("0"),
    }) + lit(",\n        \"bodySize\": ") + (match rq {
        Option::Some(b) => spec_dec(b.size as nat),
        Option::None => lit("0"),
    }) + lit("\n      }")
}

/// The second half of a rendered `request` object.
pub open spec fn spec_har_request_tail(t: Traffic, rq: Option<BodyView>) -> Seq<u8> {
    spec_har_request_data(t, rq) + spec_har_request_sizes(t, rq)
}

/// The rendered `request` object of an entry.
pub open spec fn spec_har_request(t: Traffic, rq: Option<BodyView>) -> Seq<u8> {
    spec_har_request_head(t) + spec_har_request_tail(t, rq)
}

/// The status and version fields of a rendered `response` object.
pub open spec fn spec_har_response_status(t: Traffic) -> Seq<u8> {
    lit("{\n        \"status\": ") + (match t.status {
        Option::Some(v) => spec_dec(v as nat),
        Option::None => lit("0"),
    }) + lit(",\n        \"statusText\": \"\",\n        \"httpVersion\": ") + spec_har_version(t)
}

/// The cookie and header arrays of a rendered `response` object.
pub open spec fn spec_har_response_lists(t: Traffic) -> Seq<u8> {
    lit(",\n        \"cookies\": ") + spec_har_res_cookies(t.res_headers) + lit(
        ",\n        \"headers\": ",
    ) + spec_har_headers(t.res_headers)
}

/// The first half of a rendered `response` object.
pub open spec fn spec_har_response_head(t: Traffic) -> Seq<u8> {
    spec_har_response_status(t) + spec_har_response_lists(t)
}

/// The `content` and `redirectURL` fields of a rendered `response` object.
pub open spec fn spec_har_response_content(t: Traffic, rs: Option<BodyView>) -> Seq<u8> {
    lit(",\n        \"content\": ") + spec_har_res_body(
        rs,
        match t.res_body_size {
            Option::Some(v) => v,
            Option::None => 0u64,
        },
        t.res_headers,
    ) + lit(",\n        \"redirectURL\": ") + (match spec_get_header_value(
        t.res_headers,
        lit("location"),
    ) {
        Option::Some(v) => seq![0x22u8] + spec_escape(v) + seq![0x22u8],
        Option::None => lit("\"\""),
    })
}

/// The size fields of a rendered `response` object.
pub open spec fn spec_har_response_sizes(t: Traffic) -> Seq<u8> {
    lit(",\n        \"headersSize\": ") + (match t.res_headers {
        Option::Some(h) => spec_dec(h.size as nat),
        Option::None => lit("-1"),
    }) + lit(",\n        \"bodySize\": ") + (match t.res_body_size {
        Option::Some(v) => spec_dec(v as nat),
        Option::None => lit("-1"),
    }) + lit("\n      }")
}

/// The second half of a rendered `response` object.
pub open spec fn spec_har_response_tail(t: Traffic, rs: Option<BodyView>) -> Seq<u8> {
    spec_har_response_content(t, rs) + spec_har_response_sizes(t)
}

/// The rendered `response` object of an entry.
pub open spec fn spec_har_response(t: Traffic, rs: Option<BodyView>) -> Seq<u8> {
    spec_har_response_head(t) + spec_har_response_tail(t, rs)
}

/// The rendered HAR entry of a record and its resolved bodies.
pub open spec fn spec_har_entry(t: Traffic, rq: Option<BodyView>, rs: Option<BodyView>) -> Seq<
    u8,
> {
    lit("{\n      \"startedDateTime\": ") + spec_time_str(t.start_time) + lit(
        ",\n      \"time\": ",
    ) + spec_har_time(t) + lit(",\n      \"request\": ") + spec_har_request(t, rq) + lit(
        ",\n      \"response\": ",
    ) + spec_har_response(t, rs) + lit(
        ",\n      \"cache\": {},\n      \"timings\": {\n        \"connect\": -1,\n        \"ssl\": -1,\n        \"send\": -1,\n        \"receive\": -1,\n        \"wait\": -1\n      }\n    }",
    )
}

/// The HAR envelope around rendered entries.
pub open spec fn spec_wrap_entries(entries: Seq<Seq<u8>>) -> Seq<u8> {
    lit(
        "{\n  \"log\": {\n    \"version\": \"1.2\",\n    \"creator\": {\n      \"name\": \"ez-shark\",\n      \"version\": \"0.1.0\",\n      \"comment\": \"\"\n    },\n    \"pages\": [],\n    \"entries\": [",
    ) + spec_join(entries, lit(", ")) + lit("]\n  }\n}")
}

/// The whole HAR document of a record: one entry in the envelope.
pub open spec fn spec_har(t: Traffic, rq: Option<BodyView>, rs: Option<BodyView>) -> Seq<u8> {
    spec_wrap_entries(seq![spec_har_entry(t, rq, rs)])
}

fn push_har_request_line(out: &mut Vec<u8>, t: &Traffic)
    requires
        valid_utf8(old(out)@),
    ensures
        final(out)@ == old(out)@ + spec_har_request_line(*t),
        valid_utf8(final(out)@),
{
    push_str_bytes(out, "{\n        \"method\": ");
    push_json_str(out, t.method.as_str());
    push_str_bytes(out, ",\n        \"url\": ");
    push_json_str(out, t.uri.as_str());
    push_str_bytes(out, ",\n        \"httpVersion\": ");
    match &t.http_version {
        Option::Some(v) => push_json_str(out, v.as_str()),
        Option::None => push_str_bytes(out, "\"\""),
    }
    assert(final(out)@ =~= old(out)@ + spec_har_request_line(*t));
}

fn push_har_request_lists(out: &mut Vec<u8>, t: &Traffic)
    requires
        valid_utf8(old(out)@),
    ensures
        final(out)@ == old(out)@ + spec_har_request_lists(*t),
        valid_utf8(final(out)@),
{
    push_str_bytes(out, ",\n        \"cookies\": ");
    push_har_req_cookies(out, &t.req_headers);
    push_str_bytes(out, ",\n        \"headers\": ");
    push_har_headers(out, &t.req_headers);
    assert(final(out)@ =~= old(out)@ + spec_har_request_lists(*t));
}

fn push_har_request_head(out: &mut Vec<u8>, t: &Traffic)
    requires
        valid_utf8(old(out)@),
    ensures
        final(out)@ == old(out)@ + spec_har_request_head(*t),
        valid_utf8(final(out)@),
{
    push_har_request_line(out, t);
    push_har_request_lists(out, t);
    assert(final(out)@ =~= old(out)@ + spec_har_request_head(*t));
}

fn push_har_request_data(out: &mut Vec<u8>, t: &Traffic, rq: &Option<crate::body::Body>)
    requires
        valid_utf8(old(out)@),
    ensures
        final(out)@ == old(out)@ + spec_har_request_data(*t, crate::body::opt_body_view(*rq)),
        valid_utf8(final(out)@),
{
    push_str_bytes(out, ",\n        \"queryString\": ");
    push_har_query(out, t.uri.as_str());
    push_str_bytes(out, ",\n        \"postData\": ");
    push_har_req_body(out, rq, &t.req_headers);
    assert(final(out)@ =~= old(out)@ + spec_har_request_data(*t, crate::body::opt_body_view(*rq)));
}

fn push_har_request_sizes(out: &mut Vec<u8>, t: &Traffic, rq: &Option<crate::body::Body>)
    requires
        valid_utf8(old(out)@),
    ensures
        final(out)@ == old(out)@ + spec_har_request_sizes(*t, crate::body::opt_body_view(*rq)),
        valid_utf8(final(out)@),
{
    push_str_bytes(out, ",\n        \"headersSize\": ");
    match &t.req_headers {
        Option::Some(h) => push_dec_u64(out, h.size),
        Option::None => push_str_bytes(out, "0"),
    }
    push_str_bytes(out, ",\n        \"bodySize\": ");
    match rq {
        Option::Some(b) => push_dec_u64(out, b.size),
        Option::None => push_str_bytes(out, "0"),
    }
    push_str_bytes(out, "\n      }");
    assert(final(out)@ =~= old(out)@ + spec_har_request_sizes(*t, crate::body::opt_body_view(*rq)));
}

fn push_har_request_tail(out: &mut Vec<u8>, t: &Traffic, rq: &Option<crate::body::Body>)
    requires
        valid_utf8(old(out)@),
    ensures
        final(out)@ == old(out)@ + spec_har_request_tail(*t, crate::body::opt_body_view(*rq)),
        valid_utf8(final(out)@),
{
    push_har_request_data(out, t, rq);
    push_har_request_sizes(out, t, rq);
    assert(final(out)@ =~= old(out)@ + spec_har_request_tail(*t, crate::body::opt_body_view(*rq)));
}

fn push_har_request(out: &mut Vec<u8>, t: &Traffic, rq: &Option<crate::body::Body>)
    requires
        valid_utf8(old(out)@),
    ensures
        final(out)@ == old(out)@ + spec_har_request(*t, crate::body::opt_body_view(*rq)),
        valid_utf8(final(out)@),
{
    push_har_request_head(out, t);
    push_har_request_tail(out, t, rq);
    assert(final(out)@ =~= old(out)@ + spec_har_request(*t, crate::body::opt_body_view(*rq)));
}

fn push_har_response_status(out: &mut Vec<u8>, t: &Traffic)
    requires
        valid_utf8(old(out)@),
    ensures
        final(out)@ == old(out)@ + spec_har_response_status(*t),
        valid_utf8(final(out)@),
{
    push_str_bytes(out, "{\n        \"status\": ");
    match t.status {
        Option::Some(v) => push_dec_u64(out, v as u64),
        Option::None => push_str_bytes(out, "0"),
    }
    push_str_bytes(out, ",\n        \"statusText\": \"\",\n        \"httpVersion\": ");
    match &t.http_version {
        Option::Some(v) => push_json_str(out, v.as_str()),
        Option::None => push_str_bytes(out, "\"\""),
    }
    assert(final(out)@ =~= old(out)@ + spec_har_response_status(*t));
}

fn push_har_response_lists(out: &mut Vec<u8>, t: &Traffic)
    requires
        valid_utf8(old(out)@),
    ensures
        final(out)@ == old(out)@ + spec_har_response_lists(*t),
        valid_utf8(final(out)@),
{
    push_str_bytes(out, ",\n        \"cookies\": ");
    push_har_res_cookies(out, &t.res_headers);
    push_str_bytes(out, ",\n        \"headers\": ");
    push_har_headers(out, &t.res_headers);
    assert(final(out)@ =~= old(out)@ + spec_har_response_lists(*t));
}

fn push_har_response_head(out: &mut Vec<u8>, t: &Traffic)
    requires
        valid_utf8(old(out)@),
    ensures
        final(out)@ == old(out)@ + spec_har_response_head(*t),
        valid_utf8(final(out)@),
{
    push_har_response_status(out, t);
    push_har_response_lists(out, t);
    assert(final(out)@ =~= old(out)@ + spec_har_response_head(*t));
}

#[verifier::rlimit(100)]
fn push_har_response_content(out: &mut Vec<u8>, t: &Traffic, rs: &Option<crate::body::Body>)
    requires
        valid_utf8(old(out)@),
    ensures
        final(out)@ == old(out)@ + spec_har_response_content(*t, crate::body::opt_body_view(*rs)),
        valid_utf8(final(out)@),
{
    push_str_bytes(out, ",\n        \"content\": ");
    let raw: u64 = match t.res_body_size {
        Option::Some(v) => v,
        Option::None => 0,
    };
    push_har_res_body(out, rs, raw, &t.res_headers);
    push_str_bytes(out, ",\n        \"redirectURL\": ");
    match crate::headers::get_header_value(&t.res_headers, "location") {
        Option::Some(v) => {
            crate::strbytes::push_ascii(out, 0x22);
            proof {
                vstd::utf8::encode_utf8_valid_utf8(v@);
            }
            push_json_escaped(out, v.as_str());
            crate::strbytes::push_ascii(out, 0x22);
        },
        Option::None => push_str_bytes(out, "\"\""),
    }
    assert(final(out)@ =~= old(out)@ + spec_har_response_content(*t, crate::body::opt_body_view(*rs)));
}

#[verifier::rlimit(100)]
fn push_har_response_sizes(out: &mut Vec<u8>, t: &Traffic)
    requires
        valid_utf8(old(out)@),
    ensures
        final(out)@ == old(out)@ + spec_har_response_sizes(*t),
        valid_utf8(final(out)@),
{
    push_str_bytes(out, ",\n        \"headersSize\": ");
    match &t.res_headers {
        Option::Some(h) => push_dec_u64(out, h.size),
        Option::None => push_str_bytes(out, "-1"),
    }
    push_str_bytes(out, ",\n        \"bodySize\": ");
    match t.res_body_size {
        Option::Some(v) => push_dec_u64(out, v),
        Option::None => push_str_bytes(out, "-1"),
    }
    push_str_bytes(out, "\n      }");
    assert(final(out)@ =~= old(out)@ + spec_har_response_sizes(*t));
}

fn push_har_response_tail(out: &mut Vec<u8>, t: &Traffic, rs: &Option<crate::body::Body>)
    requires
        valid_utf8(old(out)@),
    ensures
        final(out)@ == old(out)@ + spec_har_response_tail(*t, crate::body::opt_body_view(*rs)),
        valid_utf8(final(out)@),
{
    push_har_response_content(out, t, rs);
    push_har_response_sizes(out, t);
    assert(final(out)@ =~= old(out)@ + spec_har_response_tail(*t, crate::body::opt_body_view(*rs)));
}

fn push_har_response(out: &mut Vec<u8>, t: &Traffic, rs: &Option<crate::body::Body>)
    requires
        valid_utf8(old(out)@),
    ensures
        final(out)@ == old(out)@ + spec_har_response(*t, crate::body::opt_body_view(*rs)),
        valid_utf8(final(out)@),
{
    push_har_response_head(out, t);
    push_har_response_tail(out, t, rs);
    assert(final(out)@ =~= old(out)@ + spec_har_response(*t, crate::body::opt_body_view(*rs)));
}

impl Traffic {
    /// The rendered HAR entry for this record and its resolved bodies.
    pub fn har_entry(&self, req_body: &Option<crate::body::Body>, res_body: &Option<
        crate::body::Body>) -> (r: String)
        requires
            self.wf(),
        ensures
            encode_utf8(r@) == spec_har_entry(
                *self,
                crate::body::opt_body_view(*req_body),
                crate::body::opt_body_view(*res_body),
            ),
    {
        let mut out: Vec<u8> = Vec::new();
        assert(valid_utf8(out@));
        push_str_bytes(&mut out, "{\n      \"startedDateTime\": ");
        push_time_str(&mut out, self.start_time);
        push_str_bytes(&mut out, ",\n      \"time\": ");
        match self.time() {
            Option::Some(ms) => push_dec_u64(&mut out, ms),
            Option::None => push_str_bytes(&mut out, "-1"),
        }
        push_str_bytes(&mut out, ",\n      \"request\": ");
        push_har_request(&mut out, self, req_body);
        push_str_bytes(&mut out, ",\n      \"response\": ");
        push_har_response(&mut out, self, res_body);
        push_str_bytes(&mut out,
            ",\n      \"cache\": {},\n      \"timings\": {\n        \"connect\": -1,\n        \"ssl\": -1,\n        \"send\": -1,\n        \"receive\": -1,\n        \"wait\": -1\n      }\n    }",
        );
        assert(out@ =~= spec_har_entry(
            *self,
            crate::body::opt_body_view(*req_body),
            crate::body::opt_body_view(*res_body),
        ));
        bytes_into_string(out)
    }

    /// The whole HAR 1.2 document for this record.
    pub fn har(&self, req_body: &Option<crate::body::Body>, res_body: &Option<crate::body::Body>)
        -> (r: String)
        requires
            self.wf(),
        ensures
            encode_utf8(r@) == spec_har(
                *self,
                crate::body::opt_body_view(*req_body),
                crate::body::opt_body_view(*res_body),
            ),
    {
        let entry = self.har_entry(req_body, res_body);
        let mut entries: Vec<String> = Vec::new();
        entries.push(entry);
        let r = wrap_entries(entries);
        assert(r@ =~~= r@);
        proof {
            let es = seq![
                spec_har_entry(
                    *self,
                    crate::body::opt_body_view(*req_body),
                    crate::body::opt_body_view(*res_body),
                ),
            ];
            assert(Seq::new(1, |i: int| spec_har_entry(
                *self,
                crate::body::opt_body_view(*req_body),
                crate::body::opt_body_view(*res_body),
            )) =~= es);
        }
        r
    }
}

/// Wraps rendered entries in the HAR `log` envelope.
pub fn wrap_entries(entries: Vec<String>) -> (r: String)
    ensures
        encode_utf8(r@) == spec_wrap_entries(
            Seq::new(entries@.len(), |i: int| encode_utf8(entries@[i]@)),
        ),
{
    let ghost pieces = Seq::new(entries@.len(), |i: int| encode_utf8(entries@[i]@));
    let mut parts: Vec<Vec<u8>> = Vec::new();
    let mut i: usize = 0;
    while i < entries.len()
        invariant
            0 <= i <= entries@.len(),
            pieces == Seq::new(entries@.len(), |j: int| encode_utf8(entries@[j]@)),
            parts@.len() == i,
            forall|j: int| 0 <= j < i ==> #[trigger] parts@[j]@ == pieces[j],
            forall|j: int| 0 <= j < parts@.len() ==> valid_utf8(#[trigger] parts@[j]@),
        decreases entries@.len() - i,
    {
        let e = &entries[i];
        proof {
            vstd::utf8::encode_utf8_valid_utf8(e@);
        }
        let p = vstd::slice::slice_to_vec(e.as_str().as_bytes());
        parts.push(p);
        i += 1;
    }
    let mut out: Vec<u8> = Vec::new();
    assert(valid_utf8(out@));
    push_str_bytes(&mut out,
        "{\n  \"log\": {\n    \"version\": \"1.2\",\n    \"creator\": {\n      \"name\": \"ez-shark\",\n      \"version\": \"0.1.0\",\n      \"comment\": \"\"\n    },\n    \"pages\": [],\n    \"entries\": [",
    );
    assert(parts@.map_values(|p: Vec<u8>| p@) =~= pieces);
    push_join(&mut out, &parts, ", ");
    push_str_bytes(&mut out, "]\n  }\n}");
    assert(out@ =~= spec_wrap_entries(pieces));
    bytes_into_string(out)
}

fn push_content_type(out: &mut Vec<u8>, headers: &Option<Headers>)
    requires
        valid_utf8(old(out)@),
    ensures
        final(out)@ == old(out)@ + spec_escape(spec_content_type(*headers)),
        valid_utf8(final(out)@),
{
    match crate::headers::get_header_value(headers, "content-type") {
        Option::Some(v) => {
            push_json_escaped(out, v.as_str());
        },
        Option::None => {
            assert(spec_escape(spec_content_type(*headers)) =~= Seq::<u8>::empty());
            assert(final(out)@ =~= old(out)@ + spec_escape(spec_content_type(*headers)));
        },
    }
}

/// Appends the HAR `request.postData` object.
pub fn push_har_req_body(out: &mut Vec<u8>, rq: &Option<crate::body::Body>, headers: &Option<
    Headers>)
    requires
        valid_utf8(old(out)@),
    ensures
        final(out)@ == old(out)@ + spec_har_req_body(crate::body::opt_body_view(*rq), *headers),
        valid_utf8(final(out)@),
{
    push_str_bytes(out, "{\"mimeType\": \"");
    push_content_type(out, headers);
    push_str_bytes(out, "\", \"text\": \"");
    match rq {
        Option::Some(b) => {
            push_json_escaped(out, b.value.as_str());
        },
        Option::None => {},
    }
    push_str_bytes(out, "\"}");
    assert(final(out)@ =~= old(out)@ + spec_har_req_body(
        crate::body::opt_body_view(*rq),
        *headers,
    ));
}

/// Appends the HAR `response.content` object.
#[verifier::rlimit(100)]
pub fn push_har_res_body(
    out: &mut Vec<u8>,
    rs: &Option<crate::body::Body>,
    raw_size: u64,
    headers: &Option<Headers>,
)
    requires
        valid_utf8(old(out)@),
    ensures
        final(out)@ == old(out)@ + spec_har_res_body(
            crate::body::opt_body_view(*rs),
            raw_size,
            *headers,
        ),
        valid_utf8(final(out)@),
{
    match rs {
        Option::Some(b) => {
            push_str_bytes(out, "{\"size\": ");
            push_dec_u64(out, raw_size);
            push_str_bytes(out, ", \"mimeType\": \"");
            push_content_type(out, headers);
            push_str_bytes(out, "\", \"text\": \"");
            push_json_escaped(out, b.value.as_str());
            push_str_bytes(out, "\"");
            if !b.is_utf8() {
                push_str_bytes(out, ", \"encoding\": \"base64\"");
            }
            push_str_bytes(out, ", \"compression\": ");
            let delta: i128 = b.size as i128 - raw_size as i128;
            push_dec_i128(out, delta);
            push_str_bytes(out, "}");
            assert(final(out)@ =~= old(out)@ + spec_har_res_body(
                crate::body::opt_body_view(*rs),
                raw_size,
                *headers,
            ));
        },
        Option::None => {
            push_str_bytes(out, "{\"size\": 0, \"mimeType\": \"");
            push_content_type(out, headers);
            push_str_bytes(out, "\", \"text\": \"\"}");
            assert(final(out)@ =~= old(out)@ + spec_har_res_body(
                crate::body::opt_body_view(*rs),
                raw_size,
                *headers,
            ));
        },
    }
}

} // verus!
