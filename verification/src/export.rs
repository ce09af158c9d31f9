//! Structured JSON export of the whole record, and the export dispatch
//! surface that selects a format and returns rendered text with its MIME
//! content type.

use crate::body::{opt_body_view, opt_data_view, opt_path_view, spec_read, Body, BodyView};
use crate::har::{push_har_headers, push_time_str, spec_har, spec_har_headers, spec_time_str};
use crate::headers::Headers;
use crate::hexview::BodyHex;
use crate::json::{push_json_str, spec_json_str};
use crate::outside::opt_str_view;
use crate::strbytes::{
    bytes_into_string, eq_bytes, lit, push_dec_u64, push_join, push_str_bytes, spec_dec,
    spec_join,
};
use crate::traffic::{spec_curl, spec_markdown, Traffic, TransactionState};
use vstd::prelude::*;
use vstd::utf8::{encode_utf8, valid_utf8};

verus! {

/// A rendered optional text: a JSON string or `null`.
pub open spec fn spec_opt_str(o: Option<Seq<char>>) -> Seq<u8> {
    match o {
        Option::Some(v) => spec_json_str(v),
        Option::None => lit("null"),
    }
}

fn push_opt_str(out: &mut Vec<u8>, o: &Option<String>)
    requires
        valid_utf8(old(out)@),
    ensures
        final(out)@ == old(out)@ + spec_opt_str(opt_str_view(*o)),
        valid_utf8(final(out)@),
{
    match o {
        Option::Some(v) => push_json_str(out, v.as_str()),
        Option::None => push_str_bytes(out, "null"),
    }
}

/// A rendered optional number: its decimal digits or `null`.
pub open spec fn spec_opt_dec(o: Option<u64>) -> Seq<u8> {
    match o {
        Option::Some(v) => spec_dec(v as nat),
        Option::None => lit("null"),
    }
}

fn push_opt_dec(out: &mut Vec<u8>, o: Option<u64>)
    requires
        valid_utf8(old(out)@),
    ensures
        final(out)@ == old(out)@ + spec_opt_dec(o),
        valid_utf8(final(out)@),
{
    match o {
        Option::Some(v) => push_dec_u64(out, v),
        Option::None => push_str_bytes(out, "null"),
    }
}

/// The JSON name of a lifecycle state.
pub open spec fn spec_state(st: TransactionState) -> Seq<u8> {
    match st {
        TransactionState::Pending => lit("\"Pending\""),
        TransactionState::Requesting => lit("\"Requesting\""),
        TransactionState::Responding => lit("\"Responding\""),
        TransactionState::ResponseDone => lit("\"ResponseDone\""),
        TransactionState::Completed => lit("\"Completed\""),
        TransactionState::Failed => lit("\"Failed\""),
        TransactionState::Aborted => lit("\"Aborted\""),
    }
}

fn push_state(out: &mut Vec<u8>, st: TransactionState)
    requires
        valid_utf8(old(out)@),
    ensures
        final(out)@ == old(out)@ + spec_state(st),
        valid_utf8(final(out)@),
{
    match st {
        TransactionState::Pending => push_str_bytes(out, "\"Pending\""),
        TransactionState::Requesting => push_str_bytes(out, "\"Requesting\""),
        TransactionState::Responding => push_str_bytes(out, "\"Responding\""),
        TransactionState::ResponseDone => push_str_bytes(out, "\"ResponseDone\""),
        TransactionState::Completed => push_str_bytes(out, "\"Completed\""),
        TransactionState::Failed => push_str_bytes(out, "\"Failed\""),
        TransactionState::Aborted => push_str_bytes(out, "\"Aborted\""),
    }
}

/// A rendered optional header collection: its items and size, or `null`.
pub open spec fn spec_headers_obj(o: Option<Headers>) -> Seq<u8> {
    match o {
        Option::Some(h) => lit("{\"items\": ") + spec_har_headers(o) + lit(", \"size\": ")
            + spec_dec(h.size as nat) + lit("}"),
        Option::None => lit("null"),
    }
}

fn push_headers_obj(out: &mut Vec<u8>, o: &Option<Headers>)
    requires
        valid_utf8(old(out)@),
    ensures
        final(out)@ == old(out)@ + spec_headers_obj(*o),
        valid_utf8(final(out)@),
{
    match o {
        Option::Some(h) => {
            push_str_bytes(out, "{\"items\": ");
            push_har_headers(out, o);
            push_str_bytes(out, ", \"size\": ");
            push_dec_u64(out, h.size);
            push_str_bytes(out, "}");
            assert(final(out)@ =~= old(out)@ + spec_headers_obj(*o));
        },
        Option::None => {
            push_str_bytes(out, "null");
        },
    }
}

/// One rendered hex-view row.
pub open spec fn spec_hex_obj(row: BodyHex) -> Seq<u8> {
    lit("{\"offset_address\": ") + spec_dec(row.offset_address as nat) + lit(", \"hex\": [")
        + spec_join(row.hex@.map_values(|b: u8| spec_dec(b as nat)), lit(", ")) + lit(
        "], \"character_view\": ",
    ) + spec_json_str(row.character_view@) + lit("}")
}

/// The rendered hex-view rows of a body, or `null`.
pub open spec fn spec_hex_rows_list(rows: Seq<BodyHex>) -> Seq<Seq<u8>>
    decreases rows.len(),
{
    if rows.len() == 0 {
        Seq::empty()
    } else {
        spec_hex_rows_list(rows.drop_last()).push(spec_hex_obj(rows.last()))
    }
}

pub open spec fn spec_hex_rows(o: Option<Vec<BodyHex>>) -> Seq<u8> {
    match o {
        Option::Some(rows) => lit("[") + spec_join(spec_hex_rows_list(rows@), lit(", ")) + lit(
            "]",
        ),
        Option::None => lit("null"),
    }
}

fn hex_obj_piece(row: &BodyHex) -> (r: Vec<u8>)
    ensures
        r@ == spec_hex_obj(*row),
        valid_utf8(r@),
{
    let mut p: Vec<u8> = Vec::new();
    assert(valid_utf8(p@));
    push_str_bytes(&mut p, "{\"offset_address\": ");
    push_dec_u64(&mut p, row.offset_address);
    push_str_bytes(&mut p, ", \"hex\": [");
    let ghost nums = row.hex@.map_values(|b: u8| spec_dec(b as nat));
    let mut digits: Vec<Vec<u8>> = Vec::new();
    let mut i: usize = 0;
    assert(digits@.map_values(|q: Vec<u8>| q@) =~= nums.take(0));
    while i < row.hex.len()
        invariant
            0 <= i <= row.hex@.len(),
            nums == row.hex@.map_values(|b: u8| spec_dec(b as nat)),
            nums.len() == row.hex@.len(),
            digits@.map_values(|q: Vec<u8>| q@) == nums.take(i as int),
            forall|j: int| 0 <= j < digits@.len() ==> valid_utf8(#[trigger] digits@[j]@),
        decreases row.hex@.len() - i,
    {
        let mut d: Vec<u8> = Vec::new();
        assert(valid_utf8(d@));
        push_dec_u64(&mut d, row.hex[i] as u64);
        assert(d@ =~= spec_dec(row.hex@[i as int] as nat));
        digits.push(d);
        proof {
            assert(nums.take(i + 1).drop_last() =~= nums.take(i as int));
            assert(nums.take(i + 1).last() == nums[i as int]);
            assert(digits@.map_values(|q: Vec<u8>| q@) =~= nums.take(i + 1));
        }
        i += 1;
    }
    assert(nums.take(nums.len() as int) =~= nums);
    push_join(&mut p, &digits, ", ");
    push_str_bytes(&mut p, "], \"character_view\": ");
    push_json_str(&mut p, row.character_view.as_str());
    push_str_bytes(&mut p, "}");
    assert(p@ =~= spec_hex_obj(*row));
    p
}

fn push_hex_rows(out: &mut Vec<u8>, o: &Option<Vec<BodyHex>>)
    requires
        valid_utf8(old(out)@),
    ensures
        final(out)@ == old(out)@ + spec_hex_rows(*o),
        valid_utf8(final(out)@),
{
    match o {
        Option::Some(rows) => {
            let ghost rseq = rows@;
            let mut pieces: Vec<Vec<u8>> = Vec::new();
            let mut i: usize = 0;
            assert(rseq.take(0) =~= Seq::<BodyHex>::empty());
            assert(pieces@.map_values(|q: Vec<u8>| q@) =~= spec_hex_rows_list(rseq.take(0)));
            while i < rows.len()
                invariant
                    0 <= i <= rseq.len(),
                    rseq == rows@,
                    pieces@.map_values(|q: Vec<u8>| q@) == spec_hex_rows_list(rseq.take(i as int)),
                    forall|j: int| 0 <= j < pieces@.len() ==> valid_utf8(#[trigger] pieces@[j]@),
                decreases rseq.len() - i,
            {
                let p = hex_obj_piece(&rows[i]);
                pieces.push(p);
                proof {
                    assert(rseq.take(i + 1).drop_last() =~= rseq.take(i as int));
                    assert(rseq.take(i + 1).last() == rseq[i as int]);
                    assert(pieces@.map_values(|q: Vec<u8>| q@) =~= spec_hex_rows_list(
                        rseq.take(i + 1)));
                }
                i += 1;
            }
            assert(rseq.take(rseq.len() as int) =~= rseq);
            push_str_bytes(out, "[");
            push_join(out, &pieces, ", ");
            push_str_bytes(out, "]");
            assert(final(out)@ =~= old(out)@ + spec_hex_rows(*o));
        },
        Option::None => {
            push_str_bytes(out, "null");
        },
    }
}

/// A rendered optional resolved body, or `null`.
pub open spec fn spec_body_obj(o: Option<BodyView>) -> Seq<u8> {
    match o {
        Option::Some(b) => lit("{\"encode\": ") + spec_json_str(b.encode) + lit(", \"value\": ")
            + spec_json_str(b.value) + lit(", \"size\": ") + spec_dec(b.size as nat) + lit("}"),
        Option::None => lit("null"),
    }
}

fn push_body_obj(out: &mut Vec<u8>, o: &Option<Body>)
    requires
        valid_utf8(old(out)@),
    ensures
        final(out)@ == old(out)@ + spec_body_obj(opt_body_view(*o)),
        valid_utf8(final(out)@),
{
    match o {
        Option::Some(b) => {
            push_str_bytes(out, "{\"encode\": ");
            push_json_str(out, b.encode.as_str());
            push_str_bytes(out, ", \"value\": ");
            push_json_str(out, b.value.as_str());
            push_str_bytes(out, ", \"size\": ");
            push_dec_u64(out, b.size);
            push_str_bytes(out, "}");
            assert(final(out)@ =~= old(out)@ + spec_body_obj(opt_body_view(*o)));
        },
        Option::None => {
            push_str_bytes(out, "null");
        },
    }
}

/// The identity fields of the structured export.
pub open spec fn spec_tj_ident(t: Traffic) -> Seq<u8> {
    lit("{\n  \"gid\": ") + spec_dec(t.gid as nat) + lit(",\n  \"session_id\": ") + spec_json_str(
        t.session_id@,
    ) + lit(",\n  \"uri\": ") + spec_json_str(t.uri@) + lit(",\n  \"method\": ") + spec_json_str(
        t.method@,
    ) + lit(",\n  \"transaction_state\": ") + spec_state(t.transaction_state)
}

/// The request-side fields of the structured export.
pub open spec fn spec_tj_req(t: Traffic) -> Seq<u8> {
    lit(",\n  \"req_headers\": ") + spec_headers_obj(t.req_headers) + lit(
        ",\n  \"req_body_file\": ",
    ) + spec_opt_str(opt_path_view(t.req_body_file)) + lit(",\n  \"req_body_hex\": ")
        + spec_hex_rows(t.req_body_hex)
}

/// The response status fields of the structured export.
pub open spec fn spec_tj_res_head(t: Traffic) -> Seq<u8> {
    lit(",\n  \"status\": ") + (match t.status {
        Option::Some(v) => spec_dec(v as nat),
        Option::None => lit("null"),
    }) + lit(",\n  \"http_version\": ") + spec_opt_str(opt_str_view(t.http_version)) + lit(
        ",\n  \"res_headers\": ",
    ) + spec_headers_obj(t.res_headers)
}

/// The response body fields of the structured export.
pub open spec fn spec_tj_res_body(t: Traffic) -> Seq<u8> {
    lit(",\n  \"res_body_file\": ") + spec_opt_str(opt_path_view(t.res_body_file)) + lit(
        ",\n  \"res_body_hex\": ",
    ) + spec_hex_rows(t.res_body_hex) + lit(",\n  \"res_body_size\": ") + spec_opt_dec(
        t.res_body_size,
    )
}

/// The timing and error fields of the structured export.
pub open spec fn spec_tj_misc(t: Traffic) -> Seq<u8> {
    lit(",\n  \"websocket_id\": ") + (match t.websocket_id {
        Option::Some(v) => spec_dec(v as nat),
        Option::None => lit("null"),
    }) + lit(",\n  \"start_time\": ") + spec_time_str(t.start_time) + lit(",\n  \"end_time\": ")
        + spec_time_str(t.end_time) + lit(",\n  \"error\": ") + spec_opt_str(
        opt_str_view(t.error),
    )
}

/// The overlaid resolved bodies of the structured export.
pub open spec fn spec_tj_bodies(rq: Option<BodyView>, rs: Option<BodyView>) -> Seq<u8> {
    lit(",\n  \"req_body\": ") + spec_body_obj(rq) + lit(",\n  \"res_body\": ") + spec_body_obj(
        rs,
    ) + lit("\n}")
}

/// The whole structured export of a record and its resolved bodies.
pub open spec fn spec_traffic_json(t: Traffic, rq: Option<BodyView>, rs: Option<BodyView>) -> Seq<
    u8,
> {
    spec_tj_ident(t) + spec_tj_req(t) + spec_tj_res_head(t) + spec_tj_res_body(t) + spec_tj_misc(
        t,
    ) + spec_tj_bodies(rq, rs)
}

#[verifier::rlimit(100)]
fn push_tj_ident(out: &mut Vec<u8>, t: &Traffic)
    requires
        valid_utf8(old(out)@),
    ensures
        final(out)@ == old(out)@ + spec_tj_ident(*t),
        valid_utf8(final(out)@),
{
    push_str_bytes(out, "{\n  \"gid\": ");
    push_dec_u64(out, t.gid);
    push_str_bytes(out, ",\n  \"session_id\": ");
    push_json_str(out, t.session_id.as_str());
    push_str_bytes(out, ",\n  \"uri\": ");
    push_json_str(out, t.uri.as_str());
    push_str_bytes(out, ",\n  \"method\": ");
    push_json_str(out, t.method.as_str());
    push_str_bytes(out, ",\n  \"transaction_state\": ");
    push_state(out, t.transaction_state);
    assert(final(out)@ =~= old(out)@ + spec_tj_ident(*t));
}

#[verifier::rlimit(100)]
fn push_tj_req(out: &mut Vec<u8>, t: &Traffic)
    requires
        valid_utf8(old(out)@),
    ensures
        final(out)@ == old(out)@ + spec_tj_req(*t),
        valid_utf8(final(out)@),
{
    push_str_bytes(out, ",\n  \"req_headers\": ");
    push_headers_obj(out, &t.req_headers);
    push_str_bytes(out, ",\n  \"req_body_file\": ");
    push_opt_str(out, &t.req_body_file);
    push_str_bytes(out, ",\n  \"req_body_hex\": ");
    push_hex_rows(out, &t.req_body_hex);
    assert(final(out)@ =~= old(out)@ + spec_tj_req(*t));
}

#[verifier::rlimit(100)]
fn push_tj_res_head(out: &mut Vec<u8>, t: &Traffic)
    requires
        valid_utf8(old(out)@),
    ensures
        final(out)@ == old(out)@ + spec_tj_res_head(*t),
        valid_utf8(final(out)@),
{
    push_str_bytes(out, ",\n  \"status\": ");
    match t.status {
        Option::Some(v) => push_dec_u64(out, v as u64),
        Option::None => push_str_bytes(out, "null"),
    }
    push_str_bytes(out, ",\n  \"http_version\": ");
    push_opt_str(out, &t.http_version);
    push_str_bytes(out, ",\n  \"res_headers\": ");
    push_headers_obj(out, &t.res_headers);
    assert(final(out)@ =~= old(out)@ + spec_tj_res_head(*t));
}

#[verifier::rlimit(100)]
fn push_tj_res_body(out: &mut Vec<u8>, t: &Traffic)
    requires
        valid_utf8(old(out)@),
    ensures
        final(out)@ == old(out)@ + spec_tj_res_body(*t),
        valid_utf8(final(out)@),
{
    push_str_bytes(out, ",\n  \"res_body_file\": ");
    push_opt_str(out, &t.res_body_file);
    push_str_bytes(out, ",\n  \"res_body_hex\": ");
    push_hex_rows(out, &t.res_body_hex);
    push_str_bytes(out, ",\n  \"res_body_size\": ");
    push_opt_dec(out, t.res_body_size);
    assert(final(out)@ =~= old(out)@ + spec_tj_res_body(*t));
}

#[verifier::rlimit(100)]
fn push_tj_misc(out: &mut Vec<u8>, t: &Traffic)
    requires
        valid_utf8(old(out)@),
    ensures
        final(out)@ == old(out)@ + spec_tj_misc(*t),
        valid_utf8(final(out)@),
{
    push_str_bytes(out, ",\n  \"websocket_id\": ");
    match t.websocket_id {
        Option::Some(v) => push_dec_u64(out, v as u64),
        Option::None => push_str_bytes(out, "null"),
    }
    push_str_bytes(out, ",\n  \"start_time\": ");
    push_time_str(out, t.start_time);
    push_str_bytes(out, ",\n  \"end_time\": ");
    push_time_str(out, t.end_time);
    push_str_bytes(out, ",\n  \"error\": ");
    push_opt_str(out, &t.error);
    assert(final(out)@ =~= old(out)@ + spec_tj_misc(*t));
}

#[verifier::rlimit(100)]
fn push_tj_bodies(out: &mut Vec<u8>, rq: &Option<Body>, rs: &Option<Body>)
    requires
        valid_utf8(old(out)@),
    ensures
        final(out)@ == old(out)@ + spec_tj_bodies(opt_body_view(*rq), opt_body_view(*rs)),
        valid_utf8(final(out)@),
{
    push_str_bytes(out, ",\n  \"req_body\": ");
    push_body_obj(out, rq);
    push_str_bytes(out, ",\n  \"res_body\": ");
    push_body_obj(out, rs);
    push_str_bytes(out, "\n}");
    assert(final(out)@ =~= old(out)@ + spec_tj_bodies(opt_body_view(*rq), opt_body_view(*rs)));
}

/// A reported export failure: an unknown format selector, or a body request
/// with nothing to return.
#[derive(Debug, Clone)]
pub enum ExportError {
    UnsupportedFormat(String),
    NoData(String),
}

impl ExportError {
    /// The user-facing failure text.
    pub fn message(&self) -> (r: String)
        ensures
            encode_utf8(r@) == match self {
                ExportError::UnsupportedFormat(f) => lit("Unsupported format: ") + encode_utf8(
                    f@,
                ),
                ExportError::NoData(f) => lit("No ") + encode_utf8(f@) + lit(" data"),
            },
    {
        let mut out: Vec<u8> = Vec::new();
        assert(valid_utf8(out@));
        match self {
            ExportError::UnsupportedFormat(f) => {
                push_str_bytes(&mut out, "Unsupported format: ");
                push_str_bytes(&mut out, f.as_str());
            },
            ExportError::NoData(f) => {
                push_str_bytes(&mut out, "No ");
                push_str_bytes(&mut out, f.as_str());
                push_str_bytes(&mut out, " data");
            },
        }
        bytes_into_string(out)
    }
}

impl Traffic {
    /// The structured JSON export: the full record with the resolved bodies
    /// overlaid on the body-file references.
    pub fn json(&self, req_body: &Option<Body>, res_body: &Option<Body>) -> (r: String)
        ensures
            encode_utf8(r@) == spec_traffic_json(
                *self,
                opt_body_view(*req_body),
                opt_body_view(*res_body),
            ),
    {
        let mut out: Vec<u8> = Vec::new();
        assert(valid_utf8(out@));
        push_tj_ident(&mut out, self);
        push_tj_req(&mut out, self);
        push_tj_res_head(&mut out, self);
        push_tj_res_body(&mut out, self);
        push_tj_misc(&mut out, self);
        push_tj_bodies(&mut out, req_body, res_body);
        assert(out@ =~= spec_traffic_json(
            *self,
            opt_body_view(*req_body),
            opt_body_view(*res_body),
        ));
        bytes_into_string(out)
    }

    /// Renders the record in the requested format from the raw body
    /// contents the caller read from disk. The empty selector means the
    /// structured JSON export; an unknown selector, or a body request with
    /// no body available, is a reported failure.
    pub fn export(&self, format: &str, req_data: &Option<Vec<u8>>, res_data: &Option<Vec<u8>>)
        -> (r: Result<(String, &'static str), ExportError>)
        requires
            self.wf(),
        ensures
            ({
                let fb = lit(format);
                let rq = spec_read(opt_path_view(self.req_body_file), opt_data_view(*req_data),
                    false);
                let rqb = spec_read(opt_path_view(self.req_body_file), opt_data_view(*req_data),
                    true);
                let rsp = self.spec_res_read_path();
                let rs = spec_read(rsp, opt_data_view(*res_data), false);
                let rsb = spec_read(rsp, opt_data_view(*res_data), true);
                if fb == lit("markdown") {
                    r matches Ok(p) && encode_utf8(p.0@) == spec_markdown(*self, rq, rs) && p.1@
                        == "text/markdown; charset=UTF-8"@
                } else if fb == lit("har") {
                    r matches Ok(p) && encode_utf8(p.0@) == spec_har(*self, rqb, rsb) && p.1@
                        == "application/json; charset=UTF-8"@
                } else if fb == lit("curl") {
                    r matches Ok(p) && encode_utf8(p.0@) == spec_curl(*self, rq) && p.1@
                        == "text/plain; charset=UTF-8"@
                } else if fb == lit("req-body") {
                    &&& (r is Ok <==> rq is Some)
                    &&& (r matches Ok(p) ==> (rq matches Some(b) && p.0@ == b.value && p.1@
                        == "text/plain; charset=UTF-8"@))
                    &&& (r is Err ==> (r matches Err(ExportError::NoData(f)) && f@ == format@))
                } else if fb == lit("res-body") {
                    &&& (r is Ok <==> rs is Some)
                    &&& (r matches Ok(p) ==> (rs matches Some(b) && p.0@ == b.value && p.1@
                        == "text/plain; charset=UTF-8"@))
                    &&& (r is Err ==> (r matches Err(ExportError::NoData(f)) && f@ == format@))
                } else if fb == lit("") {
                    r matches Ok(p) && encode_utf8(p.0@) == spec_traffic_json(*self, rqb, rsb)
                        && p.1@ == "application/json; charset=UTF-8"@
                } else {
                    r matches Err(ExportError::UnsupportedFormat(f)) && f@ == format@
                }
            }),
    {
        let f = format.as_bytes();
        if eq_bytes(f, "markdown".as_bytes()) {
            let rq = Body::read(&self.req_body_file, req_data, false);
            let rsp = self.res_read_path();
            let rs = Body::read(&rsp, res_data, false);
            Result::Ok((self.markdown(&rq, &rs), "text/markdown; charset=UTF-8"))
        } else if eq_bytes(f, "har".as_bytes()) {
            let rq = Body::read(&self.req_body_file, req_data, true);
            let rsp = self.res_read_path();
            let rs = Body::read(&rsp, res_data, true);
            Result::Ok((self.har(&rq, &rs), "application/json; charset=UTF-8"))
        } else if eq_bytes(f, "curl".as_bytes()) {
            let rq = Body::read(&self.req_body_file, req_data, false);
            Result::Ok((self.curl(&rq), "text/plain; charset=UTF-8"))
        } else if eq_bytes(f, "req-body".as_bytes()) {
            let rq = Body::read(&self.req_body_file, req_data, false);
            match rq {
                Option::Some(b) => Result::Ok((b.value, "text/plain; charset=UTF-8")),
                Option::None => Result::Err(ExportError::NoData(format.to_owned())),
            }
        } else if eq_bytes(f, "res-body".as_bytes()) {
            let rsp = self.res_read_path();
            let rs = Body::read(&rsp, res_data, false);
            match rs {
                Option::Some(b) => Result::Ok((b.value, "text/plain; charset=UTF-8")),
                Option::None => Result::Err(ExportError::NoData(format.to_owned())),
            }
        } else if f.len() == 0 {
            let rq = Body::read(&self.req_body_file, req_data, true);
            let rsp = self.res_read_path();
            let rs = Body::read(&rsp, res_data, true);
            proof {
                reveal_strlit("");
                assert(""@.len() == 0);
                assert(lit("") =~= Seq::<u8>::empty());
                assert(lit(format) =~= lit(""));
            }
            Result::Ok((self.json(&rq, &rs), "application/json; charset=UTF-8"))
        } else {
            proof {
                reveal_strlit("");
                assert(""@.len() == 0);
                assert(lit("").len() == 0);
            }
            Result::Err(ExportError::UnsupportedFormat(format.to_owned()))
        }
    }
}

} // verus!
