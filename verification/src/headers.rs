//! Ordered header collection: wire-size estimate and compact textual
//! rendering used by the document export.

use crate::strbytes::{
    bytes_into_string, eq_bytes, lemma_ascii_valid, lemma_lit_valid, lemma_replace_valid, lit,
    push_str_bytes, replace_bytes, spec_find, spec_join, spec_replace, spec_trim, trim_bytes,
};
use vstd::prelude::*;
use vstd::slice::slice_subrange;
use vstd::utf8::{encode_utf8, valid_utf8, valid_utf8_concat};

verus! {

/// One header line: a name/value pair.
#[derive(Debug, Clone)]
pub struct Header {
    pub name: String,
    pub value: String,
}

impl Header {
    /// Builds a pair from borrowed name and value.
    pub fn new(name: &str, value: &str) -> (r: Header)
        ensures
            r.name@ == name@,
            r.value@ == value@,
    {
        Header { name: name.to_owned(), value: value.to_owned() }
    }
}

/// The estimated wire size of a header list: name and value byte lengths
/// plus a fixed per-header overhead of 12, plus 7 for the collection.
pub open spec fn spec_headers_size(items: Seq<Header>) -> int
    decreases items.len(),
{
    if items.len() == 0 {
        7
    } else {
        spec_headers_size(items.drop_last()) + encode_utf8(items.last().name@).len()
            + encode_utf8(items.last().value@).len() + 12
    }
}

proof fn lemma_headers_size_mono(items: Seq<Header>, i: int)
    requires
        0 <= i <= items.len(),
    ensures
        spec_headers_size(items.take(i)) <= spec_headers_size(items),
        spec_headers_size(items.take(i)) >= 7,
    decreases items.len() - i,
{
    if i == items.len() {
        assert(items.take(i) =~= items);
        lemma_headers_size_nonneg(items);
    } else {
        lemma_headers_size_mono(items, i + 1);
        lemma_headers_size_nonneg(items.take(i));
        assert(items.take(i + 1).drop_last() =~= items.take(i));
        assert(spec_headers_size(items.take(i + 1)) >= spec_headers_size(items.take(i)));
    }
}

proof fn lemma_headers_size_nonneg(items: Seq<Header>)
    ensures
        spec_headers_size(items) >= 7,
    decreases items.len(),
{
    if items.len() > 0 {
        lemma_headers_size_nonneg(items.drop_last());
    }
}

/// An ordered list of header pairs with its estimated wire size.
#[derive(Debug, Clone)]
pub struct Headers {
    pub items: Vec<Header>,
    pub size: u64,
}

impl Headers {
    /// Builds the collection from raw name/value pairs, computing the
    /// estimated wire size.
    pub fn new(items: Vec<Header>) -> (r: Headers)
        requires
            spec_headers_size(items@) <= u64::MAX,
        ensures
            r.items@ == items@,
            r.size == spec_headers_size(items@),
    {
        let mut size: u64 = 7;
        let mut i: usize = 0;
        assert(items@.take(0) =~= Seq::<Header>::empty());
        while i < items.len()
            invariant
                0 <= i <= items@.len(),
                spec_headers_size(items@) <= u64::MAX,
                size == spec_headers_size(items@.take(i as int)),
            decreases items@.len() - i,
        {
            proof {
                lemma_headers_size_mono(items@, i + 1);
                assert(items@.take(i + 1).drop_last() =~= items@.take(i as int));
                assert(items@.take(i + 1).last() == items@[i as int]);
            }
            let nl: usize = items[i].name.as_str().as_bytes().len();
            let vl: usize = items[i].value.as_str().as_bytes().len();
            assert(spec_headers_size(items@.take(i + 1)) == spec_headers_size(
                items@.take(i as int),
            ) + nl + vl + 12);
            size = size + nl as u64 + vl as u64 + 12;
            i += 1;
        }
        assert(items@.take(items@.len() as int) =~= items@);
        Headers { items, size }
    }

    /// Renders the headers as a compact JSON-like object: `cookie` and
    /// `set-cookie` entries are merged into one synthesized `cookie` field
    /// appended last, and values that look like numbers or like
    /// `true`/`false`/`null` stay unquoted.
    pub fn to_json(&self) -> (r: String)
        ensures
            encode_utf8(r@) == spec_headers_json(self.items@),
    {
        let ghost items = self.items@;
        let mut fields: Vec<Vec<u8>> = Vec::new();
        let mut cookies: Vec<Vec<u8>> = Vec::new();
        let mut i: usize = 0;
        assert(items.take(0) =~= Seq::<Header>::empty());
        assert(fields@.map_values(|p: Vec<u8>| p@) =~= spec_fields(items.take(0)));
        assert(cookies@.map_values(|p: Vec<u8>| p@) =~= spec_cookie_vals(items.take(0)));
        while i < self.items.len()
            invariant
                0 <= i <= items.len(),
                items == self.items@,
                fields@.map_values(|p: Vec<u8>| p@) == spec_fields(items.take(i as int)),
                cookies@.map_values(|p: Vec<u8>| p@) == spec_cookie_vals(items.take(i as int)),
                forall|j: int| 0 <= j < fields@.len() ==> valid_utf8(#[trigger] fields@[j]@),
                forall|j: int| 0 <= j < cookies@.len() ==> valid_utf8(#[trigger] cookies@[j]@),
            decreases items.len() - i,
        {
            let h = &self.items[i];
            proof {
                assert(items.take(i + 1).drop_last() =~= items.take(i as int));
                assert(items.take(i + 1).last() == items[i as int]);
            }
            let merges = eq_bytes(h.name.as_str().as_bytes(), "cookie".as_bytes()) || eq_bytes(
                h.name.as_str().as_bytes(),
                "set-cookie".as_bytes(),
            );
            if merges {
                let ev = escape_quotes(h.value.as_str());
                cookies.push(ev);
                assert(cookies@.map_values(|p: Vec<u8>| p@) =~= spec_cookie_vals(
                    items.take(i + 1),
                ));
            } else {
                let f = render_field(h);
                fields.push(f);
                assert(fields@.map_values(|p: Vec<u8>| p@) =~= spec_fields(items.take(i + 1)));
            }
            i += 1;
        }
        assert(items.take(items.len() as int) =~= items);
        if cookies.len() > 0 {
            let mut cf: Vec<u8> = Vec::new();
            push_str_bytes(&mut cf, "  \"cookie\": \"");
            let mut k: usize = 0;
            let ghost cvals = cookies@.map_values(|p: Vec<u8>| p@);
            assert(cf@ =~= lit("  \"cookie\": \"") + spec_join(cvals.take(0), lit(";")));
            while k < cookies.len()
                invariant
                    0 <= k <= cookies@.len(),
                    cvals == cookies@.map_values(|p: Vec<u8>| p@),
                    cvals.len() == cookies@.len(),
                    cf@ == lit("  \"cookie\": \"") + spec_join(cvals.take(k as int), lit(";")),
                    forall|j: int| 0 <= j < cookies@.len() ==> valid_utf8(#[trigger] cookies@[j]@),
                    valid_utf8(cf@),
                decreases cookies@.len() - k,
            {
                if k > 0 {
                    push_str_bytes(&mut cf, ";");
                }
                let ghost before = cf@;
                let piece = &cookies[k];
                cf.extend_from_slice(piece.as_slice());
                proof {
                    assert(cf@ =~= before + cookies@[k as int]@);
                    valid_utf8_concat(before, cookies@[k as int]@);
                    assert(cvals.take(k + 1).drop_last() =~= cvals.take(k as int));
                    assert(cvals.take(k + 1).last() == cvals[k as int]);
                    if k == 0 {
                        assert(cf@ =~= lit("  \"cookie\": \"") + spec_join(
                            cvals.take(1),
                            lit(";"),
                        ));
                    } else {
                        assert(cf@ =~= lit("  \"cookie\": \"") + spec_join(
                            cvals.take(k + 1),
                            lit(";"),
                        ));
                    }
                }
                k += 1;
            }
            assert(cvals.take(cookies@.len() as int) =~= cvals);
            push_str_bytes(&mut cf, "\"");
            fields.push(cf);
            assert(fields@.map_values(|p: Vec<u8>| p@) =~= spec_all_fields(items));
        } else {
            assert(fields@.map_values(|p: Vec<u8>| p@) =~= spec_all_fields(items));
        }
        let ghost allf = fields@.map_values(|p: Vec<u8>| p@);
        let mut out: Vec<u8> = Vec::new();
        push_str_bytes(&mut out, "{\n");
        let mut k: usize = 0;
        assert(out@ =~= lit("{\n") + spec_join(allf.take(0), lit(",\n")));
        while k < fields.len()
            invariant
                0 <= k <= fields@.len(),
                allf == fields@.map_values(|p: Vec<u8>| p@),
                allf.len() == fields@.len(),
                out@ == lit("{\n") + spec_join(allf.take(k as int), lit(",\n")),
                forall|j: int| 0 <= j < fields@.len() ==> valid_utf8(#[trigger] fields@[j]@),
                valid_utf8(out@),
            decreases fields@.len() - k,
        {
            if k > 0 {
                push_str_bytes(&mut out, ",\n");
            }
            let ghost before = out@;
            let piece = &fields[k];
            out.extend_from_slice(piece.as_slice());
            proof {
                assert(out@ =~= before + fields@[k as int]@);
                valid_utf8_concat(before, fields@[k as int]@);
                assert(allf.take(k + 1).drop_last() =~= allf.take(k as int));
                assert(allf.take(k + 1).last() == allf[k as int]);
                if k == 0 {
                    assert(out@ =~= lit("{\n") + spec_join(allf.take(1), lit(",\n")));
                } else {
                    assert(out@ =~= lit("{\n") + spec_join(allf.take(k + 1), lit(",\n")));
                }
            }
            k += 1;
        }
        assert(allf.take(fields@.len() as int) =~= allf);
        push_str_bytes(&mut out, "\n}");
        bytes_into_string(out)
    }
}

/// A header that merges into the synthesized `cookie` field: a `cookie` or
/// `set-cookie` entry.
pub open spec fn spec_is_cookie(h: Header) -> bool {
    encode_utf8(h.name@) == lit("cookie") || encode_utf8(h.name@) == lit("set-cookie")
}

/// A merged entry's value as it joins the `cookie` field: quotes escaped.
pub open spec fn spec_cookie_val(h: Header) -> Seq<u8> {
    spec_replace(encode_utf8(h.value@), seq![0x22u8], seq![0x5cu8, 0x22u8])
}

/// The escaped value of a non-cookie field before quoting: quotes escaped,
/// then doubled backslashes collapsed.
pub open spec fn spec_escaped_value(h: Header) -> Seq<u8> {
    spec_replace(
        spec_replace(encode_utf8(h.value@), seq![0x22u8], seq![0x5cu8, 0x22u8]),
        seq![0x5cu8, 0x5cu8],
        seq![0x5cu8],
    )
}

/// A rendered non-cookie field: `  "name": value`, the value quoted unless
/// it looks like a number, `true`, `false` or `null`.
pub open spec fn spec_field(h: Header) -> Seq<u8> {
    let v = spec_escaped_value(h);
    let rendered = if spec_is_f64_literal(v) || v == lit("true") || v == lit("false") || v == lit(
        "null",
    ) {
        v
    } else {
        seq![0x22u8] + v + seq![0x22u8]
    };
    lit("  \"") + encode_utf8(h.name@) + lit("\": ") + rendered
}

/// The rendered non-cookie fields, in arrival order.
pub open spec fn spec_fields(items: Seq<Header>) -> Seq<Seq<u8>>
    decreases items.len(),
{
    if items.len() == 0 {
        Seq::empty()
    } else if spec_is_cookie(items.last()) {
        spec_fields(items.drop_last())
    } else {
        spec_fields(items.drop_last()).push(spec_field(items.last()))
    }
}

/// The escaped values of the merged entries, in arrival order.
pub open spec fn spec_cookie_vals(items: Seq<Header>) -> Seq<Seq<u8>>
    decreases items.len(),
{
    if items.len() == 0 {
        Seq::empty()
    } else if spec_is_cookie(items.last()) {
        spec_cookie_vals(items.drop_last()).push(spec_cookie_val(items.last()))
    } else {
        spec_cookie_vals(items.drop_last())
    }
}

/// All rendered fields: non-cookie fields first, then the merged cookie
/// field when any cookie entry exists.
pub open spec fn spec_all_fields(items: Seq<Header>) -> Seq<Seq<u8>> {
    let cv = spec_cookie_vals(items);
    if cv.len() == 0 {
        spec_fields(items)
    } else {
        spec_fields(items).push(
            lit("  \"cookie\": \"") + spec_join(cv, lit(";")) + lit("\""),
        )
    }
}

/// The whole JSON-like rendering of a header list.
pub open spec fn spec_headers_json(items: Seq<Header>) -> Seq<u8> {
    lit("{\n") + spec_join(spec_all_fields(items), lit(",\n")) + lit("\n}")
}

fn escape_quotes(value: &str) -> (r: Vec<u8>)
    ensures
        r@ == spec_replace(encode_utf8(value@), seq![0x22u8], seq![0x5cu8, 0x22u8]),
        valid_utf8(r@),
{
    let mut pat: Vec<u8> = Vec::new();
    pat.push(0x22);
    let mut rep: Vec<u8> = Vec::new();
    rep.push(0x5c);
    rep.push(0x22);
    assert(pat@ =~= seq![0x22u8]);
    assert(rep@ =~= seq![0x5cu8, 0x22u8]);
    let r = replace_bytes(value.as_bytes(), pat.as_slice(), rep.as_slice());
    proof {
        lemma_lit_valid(value);
        lemma_replace_valid(encode_utf8(value@), pat@, rep@);
    }
    r
}

fn render_field(h: &Header) -> (r: Vec<u8>)
    ensures
        r@ == spec_field(*h),
        valid_utf8(r@),
{
    let eq = escape_quotes(h.value.as_str());
    let mut pat: Vec<u8> = Vec::new();
    pat.push(0x5c);
    pat.push(0x5c);
    let mut rep: Vec<u8> = Vec::new();
    rep.push(0x5c);
    assert(pat@ =~= seq![0x5cu8, 0x5cu8]);
    assert(rep@ =~= seq![0x5cu8]);
    let v = replace_bytes(eq.as_slice(), pat.as_slice(), rep.as_slice());
    proof {
        lemma_replace_valid(eq@, pat@, rep@);
        assert(v@ == spec_escaped_value(*h));
    }
    let mut out: Vec<u8> = Vec::new();
    assert(valid_utf8(out@));
    push_str_bytes(&mut out, "  \"");
    push_str_bytes(&mut out, h.name.as_str());
    push_str_bytes(&mut out, "\": ");
    let unquoted = is_f64_literal(v.as_slice()) || eq_bytes(v.as_slice(), "true".as_bytes())
        || eq_bytes(v.as_slice(), "false".as_bytes()) || eq_bytes(
        v.as_slice(),
        "null".as_bytes(),
    );
    if unquoted {
        let ghost before = out@;
        out.extend_from_slice(v.as_slice());
        proof {
            assert(out@ =~= before + v@);
            valid_utf8_concat(before, v@);
        }
        assert(out@ =~= spec_field(*h));
    } else {
        let mut q: Vec<u8> = Vec::new();
        q.push(0x22);
        let ghost before = out@;
        out.extend_from_slice(q.as_slice());
        proof {
            assert(q@ =~= seq![0x22u8]);
            lemma_ascii_valid(q@);
            assert(out@ =~= before + q@);
            valid_utf8_concat(before, q@);
        }
        let ghost before2 = out@;
        out.extend_from_slice(v.as_slice());
        proof {
            assert(out@ =~= before2 + v@);
            valid_utf8_concat(before2, v@);
        }
        let ghost before3 = out@;
        out.extend_from_slice(q.as_slice());
        proof {
            assert(out@ =~= before3 + q@);
            valid_utf8_concat(before3, q@);
        }
        assert(out@ =~= spec_field(*h));
    }
    out
}

/// An ASCII decimal digit byte.
pub open spec fn is_digit(b: u8) -> bool {
    0x30 <= b <= 0x39
}

/// First index at or after `i` holding a non-digit byte (or the length).
pub open spec fn spec_skip_digits(s: Seq<u8>, i: int) -> int
    decreases s.len() - i,
    when 0 <= i <= s.len()
{
    if i < s.len() && is_digit(s[i]) {
        spec_skip_digits(s, i + 1)
    } else {
        i
    }
}

proof fn lemma_skip_digits(s: Seq<u8>, i: int)
    requires
        0 <= i <= s.len(),
    ensures
        i <= spec_skip_digits(s, i) <= s.len(),
    decreases s.len() - i,
{
    if i < s.len() && is_digit(s[i]) {
        lemma_skip_digits(s, i + 1);
    }
}

fn skip_digits(s: &[u8], i: usize) -> (r: usize)
    requires
        0 <= i <= s@.len(),
    ensures
        r == spec_skip_digits(s@, i as int),
    decreases s@.len() - i,
{
    if i < s.len() && 0x30 <= s[i] && s[i] <= 0x39 {
        skip_digits(s, i + 1)
    } else {
        i
    }
}

/// The number part of std's `f64` grammar: digits, an optional fraction,
/// an optional exponent, with at least one mantissa digit.
pub open spec fn spec_is_number(t: Seq<u8>) -> bool {
    let i = spec_skip_digits(t, 0);
    let j = if i < t.len() && t[i] == 0x2e {
        spec_skip_digits(t, i + 1)
    } else {
        i
    };
    let has_digits = i > 0 || (i < t.len() && t[i] == 0x2e && j > i + 1);
    if !has_digits {
        false
    } else if j == t.len() {
        true
    } else if t[j] == 0x65 || t[j] == 0x45 {
        let k = if j + 1 < t.len() && (t[j + 1] == 0x2b || t[j + 1] == 0x2d) {
            j + 2
        } else {
            j + 1
        };
        k < t.len() && spec_skip_digits(t, k) == t.len()
    } else {
        false
    }
}

/// Lowercased ASCII byte.
pub open spec fn ascii_lower(b: u8) -> u8 {
    if 0x41 <= b <= 0x5a {
        (b + 0x20) as u8
    } else {
        b
    }
}

/// Case-insensitive match against a lowercase word.
pub open spec fn spec_eq_lower(t: Seq<u8>, w: Seq<u8>) -> bool {
    t.len() == w.len() && forall|i: int| 0 <= i < t.len() ==> ascii_lower(#[trigger] t[i]) == w[i]
}

/// What std's `f64` parser accepts: an optional sign, then `inf`,
/// `infinity` or `nan` (case-insensitive) or a number.
pub open spec fn spec_is_f64_literal(s: Seq<u8>) -> bool {
    let t = if s.len() > 0 && (s[0] == 0x2b || s[0] == 0x2d) {
        s.drop_first()
    } else {
        s
    };
    ||| spec_eq_lower(t, lit("inf"))
    ||| spec_eq_lower(t, lit("infinity"))
    ||| spec_eq_lower(t, lit("nan"))
    ||| spec_is_number(t)
}

fn eq_lower(t: &[u8], w: &str) -> (r: bool)
    ensures
        r == spec_eq_lower(t@, lit(w)),
{
    let wb = w.as_bytes();
    if t.len() != wb.len() {
        return false;
    }
    let mut i: usize = 0;
    while i < t.len()
        invariant
            0 <= i <= t@.len(),
            t@.len() == wb@.len(),
            wb@ == lit(w),
            forall|j: int| 0 <= j < i ==> ascii_lower(#[trigger] t@[j]) == wb@[j],
        decreases t@.len() - i,
    {
        let b = t[i];
        let lb: u8 = if 0x41 <= b && b <= 0x5a {
            b + 0x20
        } else {
            b
        };
        if lb != wb[i] {
            return false;
        }
        i += 1;
    }
    true
}

/// Whether std's `f64` parser would accept these bytes.
pub fn is_f64_literal(s: &[u8]) -> (r: bool)
    ensures
        r == spec_is_f64_literal(s@),
{
    let t: &[u8] = if s.len() > 0 && (s[0] == 0x2b || s[0] == 0x2d) {
        let t0 = slice_subrange(s, 1, s.len());
        assert(t0@ =~= s@.drop_first());
        t0
    } else {
        s
    };
    if eq_lower(t, "inf") || eq_lower(t, "infinity") || eq_lower(t, "nan") {
        return true;
    }
    proof {
        lemma_skip_digits(t@, 0);
    }
    let i = skip_digits(t, 0);
    let j: usize = if i < t.len() && t[i] == 0x2e {
        proof {
            lemma_skip_digits(t@, i + 1);
        }
        skip_digits(t, i + 1)
    } else {
        i
    };
    let has_digits = i > 0 || (i < t.len() && t[i] == 0x2e && j > i + 1);
    if !has_digits {
        false
    } else if j == t.len() {
        true
    } else if t[j] == 0x65 || t[j] == 0x45 {
        let k: usize = if j + 1 < t.len() && (t[j + 1] == 0x2b || t[j + 1] == 0x2d) {
            j + 2
        } else {
            j + 1
        };
        proof {
            lemma_skip_digits(t@, j as int);
            if k as int <= t@.len() {
                lemma_skip_digits(t@, k as int);
            }
        }
        k < t.len() && skip_digits(t, k) == t.len()
    } else {
        false
    }
}

/// Index of the first header named `key` (the length when none matches).
pub open spec fn spec_header_idx(items: Seq<Header>, key: Seq<u8>) -> int
    decreases items.len(),
{
    if items.len() == 0 {
        0
    } else if encode_utf8(items[0].name@) == key {
        0
    } else {
        1 + spec_header_idx(items.drop_first(), key)
    }
}

proof fn lemma_header_idx(items: Seq<Header>, key: Seq<u8>)
    ensures
        0 <= spec_header_idx(items, key) <= items.len(),
        spec_header_idx(items, key) < items.len() ==> encode_utf8(
            items[spec_header_idx(items, key)].name@,
        ) == key,
        forall|j: int|
            0 <= j < spec_header_idx(items, key) ==> encode_utf8(#[trigger] items[j].name@) != key,
    decreases items.len(),
{
    if items.len() != 0 && encode_utf8(items[0].name@) != key {
        lemma_header_idx(items.drop_first(), key);
        assert forall|j: int| 0 <= j < spec_header_idx(items, key) implies encode_utf8(
            #[trigger] items[j].name@,
        ) != key by {
            if j > 0 {
                assert(items.drop_first()[j - 1] == items[j]);
            }
        }
    }
}

/// The value of the first header named `key`, if any.
pub open spec fn spec_get_header_value(headers: Option<Headers>, key: Seq<u8>) -> Option<Seq<u8>> {
    match headers {
        Option::None => Option::None,
        Option::Some(h) => {
            let i = spec_header_idx(h.items@, key);
            if i < h.items@.len() {
                Option::Some(encode_utf8(h.items@[i].value@))
            } else {
                Option::None
            }
        },
    }
}

/// Finds the value of the first header with the given name.
pub fn get_header_value(headers: &Option<Headers>, key: &str) -> (r: Option<String>)
    ensures
        r is Some <==> spec_get_header_value(*headers, lit(key)) is Some,
        r matches Some(v) ==> spec_get_header_value(*headers, lit(key)) == Some(
            encode_utf8(v@),
        ),
{
    if headers.is_some() {
        let h: &Headers = headers.as_ref().unwrap();
        {
            proof {
                lemma_header_idx(h.items@, lit(key));
            }
            let mut i: usize = 0;
            while i < h.items.len()
                invariant
                    (*headers) is Some,
                    (*headers)->Some_0 == *h,
                    0 <= i <= h.items@.len(),
                    forall|j: int|
                        0 <= j < i ==> encode_utf8(#[trigger] h.items@[j].name@) != lit(key),
                    0 <= spec_header_idx(h.items@, lit(key)) <= h.items@.len(),
                    spec_header_idx(h.items@, lit(key)) < h.items@.len() ==> encode_utf8(
                        h.items@[spec_header_idx(h.items@, lit(key))].name@,
                    ) == lit(key),
                    forall|j: int|
                        0 <= j < spec_header_idx(h.items@, lit(key)) ==> encode_utf8(
                            #[trigger] h.items@[j].name@,
                        ) != lit(key),
                decreases h.items@.len() - i,
            {
                if eq_bytes(h.items[i].name.as_str().as_bytes(), key.as_bytes()) {
                    assert(i == spec_header_idx(h.items@, lit(key)));
                    let v = h.items[i].value.clone();
                    assert((*headers) is Some);
                    assert((*headers)->Some_0 == *h);
                    assert(v@ == h.items@[i as int].value@);
                    assert(i == spec_header_idx((*headers)->Some_0.items@, lit(key)));
                    assert(spec_get_header_value(*headers, lit(key)) == Some(encode_utf8(v@)));
                    return Option::Some(v);
                }
                i += 1;
            }
            assert(spec_header_idx(h.items@, lit(key)) == h.items@.len());
            Option::None
        }
    } else {
        Option::None
    }
}

/// The MIME type in a `content-type` value: the part before any `;`,
/// trimmed of ASCII whitespace; the whole value when there is no `;`.
pub open spec fn spec_mime(value: Seq<u8>) -> Seq<u8> {
    let i = spec_find(value, 0x3b);
    if i < value.len() {
        spec_trim(value.take(i))
    } else {
        value
    }
}

/// The record's MIME type, from the `content-type` header (empty if absent).
pub fn extract_mime(headers: &Option<Headers>) -> (r: String)
    ensures
        encode_utf8(r@) == match spec_get_header_value(*headers, lit("content-type")) {
            Option::None => Seq::<u8>::empty(),
            Option::Some(v) => spec_mime(v),
        },
{
    match get_header_value(headers, "content-type") {
        Option::None => {
            let s = String::new();
            assert(encode_utf8(s@) =~= Seq::<u8>::empty());
            s
        },
        Option::Some(v) => {
            let vb = v.as_str().as_bytes();
            proof {
                crate::strbytes::lemma_find(vb@, 0x3b);
            }
            let i = crate::strbytes::find_byte(vb, 0x3b);
            if i < vb.len() {
                let part = slice_subrange(vb, 0, i);
                assert(part@ =~= vb@.take(i as int));
                let t = trim_bytes(part);
                proof {
                    vstd::utf8::encode_utf8_valid_utf8(v@);
                    lemma_trim_valid_via(vb@, i as int);
                }
                bytes_into_string(t)
            } else {
                v
            }
        },
    }
}

/// Trimming an initial segment of a valid UTF-8 buffer yields valid UTF-8.
proof fn lemma_trim_valid_via(s: Seq<u8>, i: int)
    requires
        valid_utf8(s),
        0 <= i <= s.len(),
        i < s.len() ==> s[i] < 0x80,
    ensures
        valid_utf8(spec_trim(s.take(i))),
{
    crate::strbytes::lemma_take_valid(s, i);
    crate::strbytes::lemma_trim_valid(s.take(i));
}

/// A HAR size field: the value when known, else the given default.
pub fn har_size(size: Option<u64>, default_value: i64) -> (r: i64)
    ensures
        match size {
            Option::Some(v) => v <= i64::MAX ==> r == v as i64,
            Option::None => r == default_value,
        },
{
    match size {
        Option::Some(v) => {
            #[verifier::truncate]
            let r = v as i64;
            r
        },
        Option::None => default_value,
    }
}

} // verus!
