//! The transaction record: one captured request/response exchange, its
//! lifecycle, headers, body references, timing and error state, and the
//! summary projection used for listing and filtering.

use crate::body::{opt_body_view, Body, BodyView};
use crate::headers::{extract_mime, spec_get_header_value, spec_mime, Header, Headers};
use crate::hexview::BodyHex;
use crate::outside::{now_unix_nanos, shell_quote, spec_shell_quote};
use crate::strbytes::{
    bytes_into_string, contains_bytes, eq_bytes, find_byte, lemma_find, lemma_replace_valid,
    lemma_skip_after_ascii, lit, push_dec_u64, push_join, push_str_bytes, replace_bytes,
    spec_contains, spec_dec, spec_find, spec_join, spec_replace,
};
use vstd::prelude::*;
use vstd::slice::{slice_subrange, slice_to_vec};
use vstd::utf8::{encode_utf8, valid_utf8, valid_utf8_concat};

verus! {

/// Lifecycle of a captured exchange. `Failed` and `Aborted` may be reached
/// from any in-flight state; callers issue only legal transitions.
#[derive(Debug, Clone, Copy, PartialEq, Eq, Structural)]
pub enum TransactionState {
    Pending,
    Requesting,
    Responding,
    ResponseDone,
    Completed,
    Failed,
    Aborted,
}

/// A stored search request over captured records.
#[derive(Debug, Clone, Default)]
pub struct SearchQuery {
    pub text: String,
    pub position: SearchQueryPosition,
}

/// Which parts of a record a search looks at.
#[derive(Debug, Clone, Default)]
pub struct SearchQueryPosition {
    pub request_url: bool,
    pub request_header: bool,
    pub request_body: bool,
    pub response_header: bool,
    pub response_body: bool,
}

/// An injectable sequence generator for record ids: ids are unique and
/// monotonically increasing, assigned once per record.
pub struct IdAllocator {
    pub next_id: u64,
}

impl IdAllocator {
    /// A fresh allocator, starting at 1.
    pub fn new() -> (r: IdAllocator)
        ensures
            r.next_id == 1,
    {
        IdAllocator { next_id: 1 }
    }

    /// Hands out the next id and advances the counter.
    pub fn fresh_id(&mut self) -> (r: u64)
        requires
            old(self).next_id < u64::MAX,
        ensures
            r == old(self).next_id,
            final(self).next_id == old(self).next_id + 1,
    {
        let id = self.next_id;
        self.next_id = self.next_id + 1;
        id
    }
}

/// One captured exchange. Timestamps are Unix nanoseconds.
#[derive(Debug, Clone)]
pub struct Traffic {
    pub gid: u64,
    pub session_id: String,
    pub uri: String,
    pub method: String,
    pub transaction_state: TransactionState,
    pub req_headers: Option<Headers>,
    pub req_body_file: Option<String>,
    pub req_body_hex: Option<Vec<BodyHex>>,
    pub status: Option<u16>,
    pub http_version: Option<String>,
    pub res_headers: Option<Headers>,
    pub res_body_file: Option<String>,
    pub res_body_hex: Option<Vec<BodyHex>>,
    pub res_body_size: Option<u64>,
    pub websocket_id: Option<usize>,
    pub start_time: Option<u64>,
    pub end_time: Option<u64>,
    pub error: Option<String>,
    pub valid: bool,
}

impl Traffic {
    /// The record's timing invariant: an end time never precedes the start.
    pub open spec fn wf(self) -> bool {
        match (self.start_time, self.end_time) {
            (Option::Some(s), Option::Some(e)) => s <= e,
            _ => true,
        }
    }

    /// A fresh record in state `Pending` with a newly allocated id and
    /// every optional field empty.
    pub fn new(uri: &str, method: &str, session_id: &str, ids: &mut IdAllocator) -> (r: Traffic)
        requires
            old(ids).next_id < u64::MAX,
        ensures
            final(ids).next_id == old(ids).next_id + 1,
            r.gid == old(ids).next_id,
            r.session_id@ == session_id@,
            r.uri@ == uri@,
            r.method@ == method@,
            r.transaction_state == TransactionState::Pending,
            r.req_headers is None && r.req_body_file is None && r.req_body_hex is None,
            r.status is None && r.http_version is None && r.res_headers is None,
            r.res_body_file is None && r.res_body_hex is None && r.res_body_size is None,
            r.start_time is None && r.end_time is None && r.websocket_id is None,
            r.error is None,
            r.valid,
            r.wf(),
    {
        Traffic {
            gid: ids.fresh_id(),
            session_id: session_id.to_owned(),
            uri: uri.to_owned(),
            method: method.to_owned(),
            transaction_state: TransactionState::Pending,
            req_headers: Option::None,
            req_body_file: Option::None,
            req_body_hex: Option::None,
            status: Option::None,
            http_version: Option::None,
            res_headers: Option::None,
            res_body_file: Option::None,
            res_body_hex: Option::None,
            res_body_size: Option::None,
            websocket_id: Option::None,
            start_time: Option::None,
            end_time: Option::None,
            error: Option::None,
            valid: true,
        }
    }

    /// Installs the request header collection (later calls overwrite).
    pub fn set_req_headers(&mut self, headers: Headers)
        ensures
            final(self).req_headers matches Some(h) && h == headers,
            *final(self) == (Traffic { req_headers: final(self).req_headers, ..*old(self) }),
    {
        self.req_headers = Option::Some(headers);
    }

    /// Records where the captured request body was written.
    pub fn set_req_body_file(&mut self, path: &str)
        ensures
            final(self).req_body_file matches Some(p) && p@ == path@,
            *final(self) == (Traffic { req_body_file: final(self).req_body_file, ..*old(self) }),
    {
        self.req_body_file = Option::Some(path.to_owned());
    }

    /// Records the response status code.
    pub fn set_res_status(&mut self, status: u16)
        ensures
            *final(self) == (Traffic { status: Some(status), ..*old(self) }),
    {
        self.status = Option::Some(status);
    }

    /// Unconditional lifecycle transition.
    pub fn set_transaction_state(&mut self, state: TransactionState)
        ensures
            *final(self) == (Traffic { transaction_state: state, ..*old(self) }),
    {
        self.transaction_state = state;
    }

    /// Records the protocol version text.
    pub fn set_http_version(&mut self, http_version: &str)
        ensures
            final(self).http_version matches Some(v) && v@ == http_version@,
            *final(self) == (Traffic { http_version: final(self).http_version, ..*old(self) }),
    {
        self.http_version = Option::Some(http_version.to_owned());
    }

    /// Installs the response header collection (later calls overwrite).
    pub fn set_res_headers(&mut self, headers: Headers)
        ensures
            final(self).res_headers matches Some(h) && h == headers,
            *final(self) == (Traffic { res_headers: final(self).res_headers, ..*old(self) }),
    {
        self.res_headers = Option::Some(headers);
    }

    /// Records where the captured response body was written.
    pub fn set_res_body_file(&mut self, path: &str)
        ensures
            final(self).res_body_file matches Some(p) && p@ == path@,
            *final(self) == (Traffic { res_body_file: final(self).res_body_file, ..*old(self) }),
    {
        self.res_body_file = Option::Some(path.to_owned());
    }

    /// Reserved filtering hook; leaves the record unchanged.
    pub fn check_match(&mut self)
        ensures
            *final(self) == *old(self),
    {
        self.valid = self.valid;
    }

    /// Stamps the start of the exchange with the current time.
    pub fn set_start_time(&mut self)
        requires
            old(self).end_time is None,
        ensures
            final(self).start_time is Some,
            *final(self) == (Traffic { start_time: final(self).start_time, ..*old(self) }),
            final(self).wf(),
    {
        let t = now_unix_nanos();
        self.start_time = Option::Some(t);
    }

    /// Appends to the accumulated error text, newline-separated.
    pub fn add_error(&mut self, error: String)
        ensures
            final(self).error matches Some(e) && encode_utf8(e@) == (match old(self).error {
                Option::None => encode_utf8(error@),
                Option::Some(prev) => encode_utf8(prev@) + seq![0x0au8] + encode_utf8(error@),
            }),
            *final(self) == (Traffic { error: final(self).error, ..*old(self) }),
    {
        match &self.error {
            Option::None => {
                self.error = Option::Some(error);
            },
            Option::Some(prev) => {
                let mut buf: Vec<u8> = Vec::new();
                push_str_bytes(&mut buf, prev.as_str());
                crate::strbytes::push_ascii(&mut buf, 0x0a);
                push_str_bytes(&mut buf, error.as_str());
                let joined = bytes_into_string(buf);
                self.error = Option::Some(joined);
            },
        }
    }

    /// Finishes response body capture: a zero size clears the body file
    /// reference; when no error was recorded, stamps the end time and the
    /// raw size, else leaves timing and size untouched.
    pub fn done_res_body(&mut self, raw_size: u64)
        requires
            old(self).wf(),
        ensures
            raw_size == 0 ==> final(self).res_body_file is None,
            raw_size != 0 ==> final(self).res_body_file == old(self).res_body_file,
            old(self).error is None ==> final(self).end_time is Some && final(self).res_body_size
                == Some(raw_size),
            old(self).error is Some ==> final(self).end_time == old(self).end_time,
            old(self).error is Some ==> final(self).res_body_size == old(self).res_body_size,
            *final(self) == (Traffic {
                res_body_file: final(self).res_body_file,
                end_time: final(self).end_time,
                res_body_size: final(self).res_body_size,
                ..*old(self)
            }),
            final(self).wf(),
    {
        if raw_size == 0 {
            self.res_body_file = Option::None;
        }
        if self.error.is_none() {
            let now = now_unix_nanos();
            let e = match self.start_time {
                Option::Some(s) => if now < s {
                    s
                } else {
                    now
                },
                Option::None => now,
            };
            self.end_time = Option::Some(e);
            self.res_body_size = Option::Some(raw_size);
        }
    }

    /// Elapsed capture time in whole milliseconds, when both timestamps are
    /// set.
    pub fn time(&self) -> (r: Option<u64>)
        requires
            self.wf(),
        ensures
            match (self.start_time, self.end_time) {
                (Option::Some(s), Option::Some(e)) => r == Some((((e - s) as u64)
                    / 1_000_000) as u64),
                _ => r is None,
            },
    {
        match (self.start_time, self.end_time) {
            (Option::Some(s), Option::Some(e)) => Option::Some((e - s) / 1_000_000),
            _ => Option::None,
        }
    }

    /// The summary projection, under the presentation id and session the
    /// caller supplies.
    pub fn head(&self, id: u64, session_id: String) -> (r: TrafficHead)
        requires
            self.wf(),
        ensures
            r.id == id,
            r.method@ == self.method@,
            r.uri@ == self.uri@,
            r.status == self.status,
            r.size == self.res_body_size,
            match (self.start_time, self.end_time) {
                (Option::Some(s), Option::Some(e)) => r.time == Some((((e - s) as u64)
                    / 1_000_000) as u64),
                _ => r.time is None,
            },
            encode_utf8(r.mime@) == match spec_get_header_value(
                self.res_headers,
                lit("content-type"),
            ) {
                Option::None => Seq::<u8>::empty(),
                Option::Some(v) => spec_mime(v),
            },
            r.transaction_state == self.transaction_state,
            r.start_time == self.start_time,
            r.websocket_id == self.websocket_id,
            r.session_id@ == session_id@,
    {
        TrafficHead {
            id,
            method: self.method.clone(),
            uri: self.uri.clone(),
            status: self.status,
            size: self.res_body_size,
            time: self.time(),
            mime: extract_mime(&self.res_headers),
            transaction_state: self.transaction_state,
            start_time: self.start_time,
            websocket_id: self.websocket_id,
            session_id,
        }
    }
}

/// The summary line of a record: method, uri, and the status when known.
pub open spec fn spec_oneline(t: Traffic) -> Seq<u8> {
    encode_utf8(t.method@) + lit(" ") + encode_utf8(t.uri@) + (match t.status {
        Option::Some(v) => lit(" ") + spec_dec(v as nat),
        Option::None => Seq::<u8>::empty(),
    })
}

/// The header lines of the document rendering: `name: value`, one per line.
pub open spec fn spec_header_lines(items: Seq<Header>) -> Seq<Seq<u8>>
    decreases items.len(),
{
    if items.len() == 0 {
        Seq::empty()
    } else {
        spec_header_lines(items.drop_last()).push(
            encode_utf8(items.last().name@) + lit(": ") + encode_utf8(items.last().value@),
        )
    }
}

/// A rendered header block: the title, then the lines in a fenced block.
pub open spec fn spec_render_header(title: Seq<u8>, h: Headers) -> Seq<u8> {
    title + lit("\n```\n") + spec_join(spec_header_lines(h.items@), lit("\n")) + lit("\n```")
}

/// The Markdown language hint for a MIME type: the subtype, taking what
/// follows a `+` when one occurs (empty when there is no `/`).
pub open spec fn spec_md_lang(mime: Seq<u8>) -> Seq<u8> {
    let i = spec_find(mime, 0x2f);
    if i < mime.len() {
        let sub = mime.skip(i + 1);
        let j = spec_find(sub, 0x2b);
        if j < sub.len() {
            sub.skip(j + 1)
        } else {
            sub
        }
    } else {
        Seq::empty()
    }
}

/// A rendered body block: fenced text with a language hint, or a binary
/// reference line.
pub open spec fn spec_render_body(title: Seq<u8>, b: BodyView, headers: Option<Headers>) -> Seq<
    u8,
> {
    let mime = match spec_get_header_value(headers, lit("content-type")) {
        Option::None => Seq::<u8>::empty(),
        Option::Some(v) => spec_mime(v),
    };
    if b.encode == "utf8"@ {
        title + lit("\n```") + spec_md_lang(mime) + lit("\n") + encode_utf8(b.value) + lit(
            "\n```",
        )
    } else {
        title + lit("\n\n[BINARY DATA](") + encode_utf8(b.value) + lit(")")
    }
}

/// A rendered error block: fenced when the text spans lines, inline else.
pub open spec fn spec_render_error(e: Seq<char>) -> Seq<u8> {
    if spec_contains(encode_utf8(e), seq![0x0au8]) {
        lit("ERROR\n```\n") + encode_utf8(e) + lit("\n```")
    } else {
        lit("ERROR: ") + encode_utf8(e)
    }
}

/// The blocks of the document rendering, in order, skipping absent parts.
pub open spec fn spec_md_lines(t: Traffic, rq: Option<BodyView>, rs: Option<BodyView>) -> Seq<
    Seq<u8>,
> {
    let l0 = seq![lit("\n# ") + spec_oneline(t)];
    let l1 = if t.req_headers is Some {
        l0.push(spec_render_header(lit("REQUEST HEADERS"), t.req_headers->Some_0))
    } else {
        l0
    };
    let l2 = if rq is Some {
        l1.push(spec_render_body(lit("REQUEST BODY"), rq->Some_0, t.req_headers))
    } else {
        l1
    };
    let l3 = if t.res_headers is Some {
        l2.push(spec_render_header(lit("RESPONSE HEADERS"), t.res_headers->Some_0))
    } else {
        l2
    };
    let l4 = if rs is Some {
        l3.push(spec_render_body(lit("RESPONSE BODY"), rs->Some_0, t.res_headers))
    } else {
        l3
    };
    if t.error is Some {
        l4.push(spec_render_error(t.error->Some_0@))
    } else {
        l4
    }
}

/// The whole document rendering: the blocks joined by blank lines.
pub open spec fn spec_markdown(t: Traffic, rq: Option<BodyView>, rs: Option<BodyView>) -> Seq<
    u8,
> {
    spec_join(spec_md_lines(t, rq, rs), lit("\n\n"))
}

/// Renders a fenced block of header lines under a title.
pub fn render_header(title: &str, headers: &Headers) -> (r: String)
    ensures
        encode_utf8(r@) == spec_render_header(lit(title), *headers),
{
    let mut lines: Vec<Vec<u8>> = Vec::new();
    let ghost items = headers.items@;
    let mut i: usize = 0;
    assert(items.take(0) =~= Seq::<Header>::empty());
    assert(lines@.map_values(|p: Vec<u8>| p@) =~= spec_header_lines(items.take(0)));
    while i < headers.items.len()
        invariant
            0 <= i <= items.len(),
            items == headers.items@,
            lines@.map_values(|p: Vec<u8>| p@) == spec_header_lines(items.take(i as int)),
            forall|j: int| 0 <= j < lines@.len() ==> valid_utf8(#[trigger] lines@[j]@),
        decreases items.len() - i,
    {
        let h = &headers.items[i];
        let mut line: Vec<u8> = Vec::new();
        assert(valid_utf8(line@));
        push_str_bytes(&mut line, h.name.as_str());
        push_str_bytes(&mut line, ": ");
        push_str_bytes(&mut line, h.value.as_str());
        lines.push(line);
        proof {
            assert(items.take(i + 1).drop_last() =~= items.take(i as int));
            assert(items.take(i + 1).last() == items[i as int]);
            assert(lines@.map_values(|p: Vec<u8>| p@) =~= spec_header_lines(items.take(i + 1)));
        }
        i += 1;
    }
    assert(items.take(items.len() as int) =~= items);
    let mut out: Vec<u8> = Vec::new();
    assert(valid_utf8(out@));
    push_str_bytes(&mut out, title);
    push_str_bytes(&mut out, "\n```\n");
    push_join(&mut out, &lines, "\n");
    push_str_bytes(&mut out, "\n```");
    assert(out@ =~= spec_render_header(lit(title), *headers));
    bytes_into_string(out)
}

fn md_lang(mime: &str) -> (r: Vec<u8>)
    ensures
        r@ == spec_md_lang(encode_utf8(mime@)),
        valid_utf8(r@),
{
    let b = mime.as_bytes();
    proof {
        lemma_find(b@, 0x2f);
        vstd::utf8::encode_utf8_valid_utf8(mime@);
    }
    let i = find_byte(b, 0x2f);
    if i < b.len() {
        let sub = slice_subrange(b, i + 1, b.len());
        assert(sub@ =~= b@.skip(i + 1));
        proof {
            lemma_skip_after_ascii(b@, i as int);
            lemma_find(sub@, 0x2b);
        }
        let j = find_byte(sub, 0x2b);
        if j < sub.len() {
            let tail = slice_subrange(sub, j + 1, sub.len());
            assert(tail@ =~= sub@.skip(j + 1));
            proof {
                lemma_skip_after_ascii(sub@, j as int);
            }
            slice_to_vec(tail)
        } else {
            slice_to_vec(sub)
        }
    } else {
        let r: Vec<u8> = Vec::new();
        assert(r@ =~= spec_md_lang(encode_utf8(mime@)));
        r
    }
}

/// Renders a body block under a title: fenced text for UTF-8 bodies, a
/// binary reference line otherwise.
pub fn render_body(title: &str, body: &Body, headers: &Option<Headers>) -> (r: String)
    ensures
        encode_utf8(r@) == spec_render_body(lit(title), body@, *headers),
{
    let mime = extract_mime(headers);
    let mut out: Vec<u8> = Vec::new();
    assert(valid_utf8(out@));
    push_str_bytes(&mut out, title);
    if body.is_utf8() {
        push_str_bytes(&mut out, "\n```");
        let lang = md_lang(mime.as_str());
        let ghost before = out@;
        out.extend_from_slice(lang.as_slice());
        proof {
            assert(out@ =~= before + lang@);
            valid_utf8_concat(before, lang@);
        }
        push_str_bytes(&mut out, "\n");
        push_str_bytes(&mut out, body.value.as_str());
        push_str_bytes(&mut out, "\n```");
    } else {
        push_str_bytes(&mut out, "\n\n[BINARY DATA](");
        push_str_bytes(&mut out, body.value.as_str());
        push_str_bytes(&mut out, ")");
    }
    assert(out@ =~= spec_render_body(lit(title), body@, *headers));
    bytes_into_string(out)
}

/// Renders the trailing error block.
pub fn render_error(error: &str) -> (r: String)
    ensures
        encode_utf8(r@) == spec_render_error(error@),
{
    let mut nl: Vec<u8> = Vec::new();
    nl.push(0x0a);
    assert(nl@ =~= seq![0x0au8]);
    let mut out: Vec<u8> = Vec::new();
    assert(valid_utf8(out@));
    if contains_bytes(error.as_bytes(), nl.as_slice()) {
        push_str_bytes(&mut out, "ERROR\n```\n");
        push_str_bytes(&mut out, error);
        push_str_bytes(&mut out, "\n```");
    } else {
        push_str_bytes(&mut out, "ERROR: ");
        push_str_bytes(&mut out, error);
    }
    assert(out@ =~= spec_render_error(error@));
    bytes_into_string(out)
}

/// The rendered `-H` flags of the cURL export: one per request header,
/// skipping `content-length` and `host`, single quotes in values escaped.
pub open spec fn spec_curl_headers(items: Seq<Header>) -> Seq<u8>
    decreases items.len(),
{
    if items.len() == 0 {
        Seq::empty()
    } else {
        let rest = spec_curl_headers(items.drop_last());
        let h = items.last();
        if encode_utf8(h.name@) == lit("content-length") || encode_utf8(h.name@) == lit("host") {
            rest
        } else {
            rest + lit(" \\\n  -H '") + encode_utf8(h.name@) + lit(": ") + spec_replace(
                encode_utf8(h.value@),
                seq![0x27u8],
                seq![0x27u8, 0x5cu8, 0x27u8, 0x27u8],
            ) + lit("'")
        }
    }
}

/// A header the cURL export keeps.
pub open spec fn spec_curl_allowed(h: Header) -> bool {
    encode_utf8(h.name@) != lit("content-length") && encode_utf8(h.name@) != lit("host")
}

/// The headers the cURL export keeps, in order.
pub open spec fn spec_allowed_headers(items: Seq<Header>) -> Seq<Header>
    decreases items.len(),
{
    if items.len() == 0 {
        Seq::empty()
    } else if spec_curl_allowed(items.last()) {
        spec_allowed_headers(items.drop_last()).push(items.last())
    } else {
        spec_allowed_headers(items.drop_last())
    }
}

/// The cURL export never renders a flag for a `content-length` or `host`
/// header: dropping them from the input leaves the rendering unchanged.
pub proof fn lemma_curl_skips_blocked_headers(items: Seq<Header>)
    ensures
        spec_curl_headers(items) == spec_curl_headers(spec_allowed_headers(items)),
    decreases items.len(),
{
    if items.len() > 0 {
        lemma_curl_skips_blocked_headers(items.drop_last());
        if spec_curl_allowed(items.last()) {
            assert(spec_allowed_headers(items).drop_last() =~= spec_allowed_headers(
                items.drop_last(),
            ));
            assert(spec_allowed_headers(items).last() == items.last());
        }
    }
}

/// The whole cURL rendering: the target, the method flag unless `GET`, the
/// kept header flags, then the body as `-d` (text) or `-t` (reference).
pub open spec fn spec_curl(t: Traffic, rq: Option<BodyView>) -> Seq<u8> {
    lit("curl ") + encode_utf8(t.uri@) + (if encode_utf8(t.method@) == lit("GET") {
        Seq::<u8>::empty()
    } else {
        lit(" \\\n  -X ") + encode_utf8(t.method@)
    }) + spec_curl_headers(
        match t.req_headers {
            Option::Some(h) => h.items@,
            Option::None => Seq::empty(),
        },
    ) + (match rq {
        Option::Some(b) => lit(" \\\n  ") + (if b.encode == "utf8"@ {
            lit("-d ")
        } else {
            lit("-t ")
        }) + encode_utf8(spec_shell_quote(b.value)),
        Option::None => Seq::<u8>::empty(),
    })
}

impl Traffic {
    /// The summary line `METHOD URI [STATUS]`.
    pub fn oneline(&self) -> (r: String)
        ensures
            encode_utf8(r@) == spec_oneline(*self),
    {
        let mut out: Vec<u8> = Vec::new();
        assert(valid_utf8(out@));
        push_str_bytes(&mut out, self.method.as_str());
        push_str_bytes(&mut out, " ");
        push_str_bytes(&mut out, self.uri.as_str());
        match self.status {
            Option::Some(v) => {
                push_str_bytes(&mut out, " ");
                push_dec_u64(&mut out, v as u64);
            },
            Option::None => {},
        }
        assert(out@ =~= spec_oneline(*self));
        bytes_into_string(out)
    }

    /// The document (Markdown) rendering of the record and its resolved
    /// bodies.
    pub fn markdown(&self, req_body: &Option<Body>, res_body: &Option<Body>) -> (r: String)
        ensures
            encode_utf8(r@) == spec_markdown(
                *self,
                opt_body_view(*req_body),
                opt_body_view(*res_body),
            ),
    {
        let ghost rq = opt_body_view(*req_body);
        let ghost rs = opt_body_view(*res_body);
        let mut lines: Vec<Vec<u8>> = Vec::new();
        let mut first: Vec<u8> = Vec::new();
        assert(valid_utf8(first@));
        push_str_bytes(&mut first, "\n# ");
        let ol = self.oneline();
        push_str_bytes(&mut first, ol.as_str());
        lines.push(first);
        match &self.req_headers {
            Option::Some(h) => {
                let block = render_header("REQUEST HEADERS", h);
                lines.push(str_bytes_vec(block.as_str()));
            },
            Option::None => {},
        }
        match req_body {
            Option::Some(b) => {
                let block = render_body("REQUEST BODY", b, &self.req_headers);
                lines.push(str_bytes_vec(block.as_str()));
            },
            Option::None => {},
        }
        match &self.res_headers {
            Option::Some(h) => {
                let block = render_header("RESPONSE HEADERS", h);
                lines.push(str_bytes_vec(block.as_str()));
            },
            Option::None => {},
        }
        match res_body {
            Option::Some(b) => {
                let block = render_body("RESPONSE BODY", b, &self.res_headers);
                lines.push(str_bytes_vec(block.as_str()));
            },
            Option::None => {},
        }
        match &self.error {
            Option::Some(e) => {
                let block = render_error(e.as_str());
                lines.push(str_bytes_vec(block.as_str()));
            },
            Option::None => {},
        }
        assert(lines@.map_values(|p: Vec<u8>| p@) =~= spec_md_lines(*self, rq, rs));
        let mut out: Vec<u8> = Vec::new();
        assert(valid_utf8(out@));
        push_join(&mut out, &lines, "\n\n");
        assert(out@ =~= spec_markdown(*self, rq, rs));
        bytes_into_string(out)
    }

    /// The reproducible shell command for the request side.
    #[verifier::rlimit(60)]
    pub fn curl(&self, req_body: &Option<Body>) -> (r: String)
        ensures
            encode_utf8(r@) == spec_curl(*self, opt_body_view(*req_body)),
    {
        let mut out: Vec<u8> = Vec::new();
        assert(valid_utf8(out@));
        push_str_bytes(&mut out, "curl ");
        push_str_bytes(&mut out, self.uri.as_str());
        if !eq_bytes(self.method.as_str().as_bytes(), "GET".as_bytes()) {
            push_str_bytes(&mut out, " \\\n  -X ");
            push_str_bytes(&mut out, self.method.as_str());
        }
        let ghost items = if self.req_headers is Some {
            self.req_headers->Some_0.items@
        } else {
            Seq::<Header>::empty()
        };
        let ghost base = out@;
        match &self.req_headers {
            Option::Some(h) => {
                let mut i: usize = 0;
                assert(items.take(0) =~= Seq::<Header>::empty());
                assert(out@ =~= base + spec_curl_headers(items.take(0)));
                while i < h.items.len()
                    invariant
                        0 <= i <= items.len(),
                        self.req_headers is Some,
                        items == self.req_headers->Some_0.items@,
                        h.items@ == items,
                        out@ == base + spec_curl_headers(items.take(i as int)),
                        valid_utf8(out@),
                    decreases items.len() - i,
                {
                    let hd = &h.items[i];
                    proof {
                        assert(items.take(i + 1).drop_last() =~= items.take(i as int));
                        assert(items.take(i + 1).last() == items[i as int]);
                    }
                    let blocked = eq_bytes(hd.name.as_str().as_bytes(), "content-length".as_bytes())
                        || eq_bytes(hd.name.as_str().as_bytes(), "host".as_bytes());
                    if !blocked {
                        push_str_bytes(&mut out, " \\\n  -H '");
                        push_str_bytes(&mut out, hd.name.as_str());
                        push_str_bytes(&mut out, ": ");
                        let mut pat: Vec<u8> = Vec::new();
                        pat.push(0x27);
                        let mut rep: Vec<u8> = Vec::new();
                        rep.push(0x27);
                        rep.push(0x5c);
                        rep.push(0x27);
                        rep.push(0x27);
                        assert(pat@ =~= seq![0x27u8]);
                        assert(rep@ =~= seq![0x27u8, 0x5cu8, 0x27u8, 0x27u8]);
                        let esc = replace_bytes(hd.value.as_str().as_bytes(), pat.as_slice(),
                            rep.as_slice());
                        proof {
                            vstd::utf8::encode_utf8_valid_utf8(hd.value@);
                            lemma_replace_valid(encode_utf8(hd.value@), pat@, rep@);
                        }
                        let ghost before = out@;
                        out.extend_from_slice(esc.as_slice());
                        proof {
                            assert(out@ =~= before + esc@);
                            valid_utf8_concat(before, esc@);
                        }
                        push_str_bytes(&mut out, "'");
                    }
                    assert(out@ =~= base + spec_curl_headers(items.take(i + 1)));
                    i += 1;
                }
                assert(items.take(items.len() as int) =~= items);
            },
            Option::None => {
                assert(spec_curl_headers(items) =~= Seq::<u8>::empty());
                assert(out@ =~= base + spec_curl_headers(items));
            },
        }
        match req_body {
            Option::Some(b) => {
                push_str_bytes(&mut out, " \\\n  ");
                if b.is_utf8() {
                    push_str_bytes(&mut out, "-d ");
                } else {
                    push_str_bytes(&mut out, "-t ");
                }
                let quoted = shell_quote(b.value.as_str());
                push_str_bytes(&mut out, quoted.as_str());
            },
            Option::None => {},
        }
        assert(out@ =~= spec_curl(*self, opt_body_view(*req_body)));
        bytes_into_string(out)
    }
}

/// The outcome of matching a path against an encoding-suffix table: the
/// index of the first suffix that matches and the path with it stripped.
pub open spec fn spec_ext_match(pb: Seq<u8>, exts: Seq<(String, String)>) -> Option<
    (int, Seq<u8>),
>
    decreases exts.len(),
{
    if exts.len() == 0 {
        Option::None
    } else {
        let sb = encode_utf8(exts[0].1@);
        if sb.len() <= pb.len() && pb.skip(pb.len() - sb.len()) == sb {
            Option::Some((0, pb.take(pb.len() - sb.len())))
        } else {
            match spec_ext_match(pb, exts.drop_first()) {
                Option::Some((k, s)) => Option::Some((k + 1, s)),
                Option::None => Option::None,
            }
        }
    }
}

proof fn lemma_ext_match(pb: Seq<u8>, exts: Seq<(String, String)>)
    ensures
        match spec_ext_match(pb, exts) {
            Option::None => forall|k: int|
                0 <= k < exts.len() ==> {
                    let sb = encode_utf8(#[trigger] exts[k].1@);
                    !(sb.len() <= pb.len() && pb.skip(pb.len() - sb.len()) == sb)
                },
            Option::Some((k, s)) => {
                let sb = encode_utf8(exts[k].1@);
                &&& 0 <= k < exts.len()
                &&& sb.len() <= pb.len() && pb.skip(pb.len() - sb.len()) == sb
                &&& s == pb.take(pb.len() - sb.len())
                &&& forall|j: int|
                    0 <= j < k ==> {
                        let jb = encode_utf8(#[trigger] exts[j].1@);
                        !(jb.len() <= pb.len() && pb.skip(pb.len() - jb.len()) == jb)
                    }
            },
        },
    decreases exts.len(),
{
    if exts.len() > 0 {
        let sb = encode_utf8(exts[0].1@);
        if sb.len() <= pb.len() && pb.skip(pb.len() - sb.len()) == sb {
        } else {
            lemma_ext_match(pb, exts.drop_first());
            assert(forall|j: int|
                1 <= j < exts.len() ==> #[trigger] exts[j] == exts.drop_first()[j - 1]);
        }
    }
}

/// Finds the first suffix of the encoding table that the path carries,
/// returning the decompression algorithm name and the path without the
/// suffix.
pub fn strip_encoding_ext(path: &str, exts: &Vec<(String, String)>) -> (r: Option<
    (String, String)>)
    requires
        forall|k: int|
            0 <= k < exts@.len() ==> vstd::utf8::is_ascii_chars(#[trigger] exts@[k].1@),
    ensures
        r is Some <==> spec_ext_match(encode_utf8(path@), exts@) is Some,
        r matches Some(p) ==> spec_ext_match(encode_utf8(path@), exts@) matches Some(m)
            && p.0@ == exts@[m.0].0@ && encode_utf8(p.1@) == m.1,
{
    let pb = path.as_bytes();
    proof {
        lemma_ext_match(pb@, exts@);
    }
    let mut i: usize = 0;
    while i < exts.len()
        invariant
            0 <= i <= exts@.len(),
            pb@ == encode_utf8(path@),
            forall|k: int|
                0 <= k < exts@.len() ==> vstd::utf8::is_ascii_chars(#[trigger] exts@[k].1@),
            forall|j: int|
                0 <= j < i ==> {
                    let jb = encode_utf8(#[trigger] exts@[j].1@);
                    !(jb.len() <= pb@.len() && pb@.skip(pb@.len() - jb.len()) == jb)
                },
            ({
                let m = spec_ext_match(pb@, exts@);
                match m {
                    Option::None => forall|k: int|
                        0 <= k < exts@.len() ==> {
                            let sb = encode_utf8(#[trigger] exts@[k].1@);
                            !(sb.len() <= pb@.len() && pb@.skip(pb@.len() - sb.len()) == sb)
                        },
                    Option::Some((k, s)) => {
                        let sb = encode_utf8(exts@[k].1@);
                        &&& 0 <= k < exts@.len()
                        &&& sb.len() <= pb@.len() && pb@.skip(pb@.len() - sb.len()) == sb
                        &&& s == pb@.take(pb@.len() - sb.len())
                        &&& forall|j: int|
                            0 <= j < k ==> {
                                let jb = encode_utf8(#[trigger] exts@[j].1@);
                                !(jb.len() <= pb@.len() && pb@.skip(pb@.len() - jb.len()) == jb)
                            }
                    },
                }
            }),
        decreases exts@.len() - i,
    {
        let suffix = exts[i].1.as_str().as_bytes();
        if crate::strbytes::ends_with_bytes(pb, suffix) {
            let cut: usize = pb.len() - suffix.len();
            let stripped = slice_subrange(pb, 0, cut);
            assert(stripped@ =~= pb@.take(cut as int));
            proof {
                vstd::utf8::encode_utf8_valid_utf8(path@);
                if (cut as int) < pb@.len() {
                    vstd::utf8::is_ascii_chars_encode_utf8(exts@[i as int].1@);
                    assert(pb@[cut as int] == encode_utf8(exts@[i as int].1@)[0]);
                    assert(encode_utf8(exts@[i as int].1@)[0] == exts@[i as int].1@[0] as u8);
                    assert(exts@[i as int].1@[0] <= '\u{7f}');
                }
                crate::strbytes::lemma_take_valid(pb@, cut as int);
                assert(spec_ext_match(pb@, exts@) matches Some(m) && m.0 == i);
            }
            let sp = bytes_into_string(slice_to_vec(stripped));
            return Option::Some((exts[i].0.clone(), sp));
        }
        i += 1;
    }
    Option::None
}

impl Traffic {
    /// The request head rendered as the compact JSON-like text, when the
    /// request headers are known.
    pub fn req_head_json(&self) -> (r: Option<String>)
        ensures
            r is Some <==> self.req_headers is Some,
            r matches Some(s) ==> encode_utf8(s@) == crate::headers::spec_headers_json(
                self.req_headers->Some_0.items@,
            ),
    {
        match &self.req_headers {
            Option::Some(h) => Option::Some(h.to_json()),
            Option::None => Option::None,
        }
    }

    /// The response head rendered as the compact JSON-like text, when the
    /// response headers are known.
    pub fn res_head_json(&self) -> (r: Option<String>)
        ensures
            r is Some <==> self.res_headers is Some,
            r matches Some(s) ==> encode_utf8(s@) == crate::headers::spec_headers_json(
                self.res_headers->Some_0.items@,
            ),
    {
        match &self.res_headers {
            Option::Some(h) => Option::Some(h.to_json()),
            Option::None => Option::None,
        }
    }

    /// The path the response body is read from: the stored reference, with
    /// a trailing `.enc.gz` marker stripped.
    pub open spec fn spec_res_read_path(self) -> Option<Seq<char>> {
        match self.res_body_file {
            Option::None => Option::None,
            Option::Some(p) => {
                let b = encode_utf8(p@);
                if b.len() >= 7 && b.skip(b.len() - 7) == seq![
                    0x2eu8,
                    0x65u8,
                    0x6eu8,
                    0x63u8,
                    0x2eu8,
                    0x67u8,
                    0x7au8,
                ] {
                    Option::Some(vstd::utf8::decode_utf8(b.take(b.len() - 7)))
                } else {
                    Option::Some(p@)
                }
            },
        }
    }

    /// Computes the path the response body is read from.
    pub fn res_read_path(&self) -> (r: Option<String>)
        ensures
            crate::body::opt_path_view(r) == self.spec_res_read_path(),
    {
        match &self.res_body_file {
            Option::None => Option::None,
            Option::Some(p) => {
                let pb = p.as_str().as_bytes();
                let mut suffix: Vec<u8> = Vec::new();
                suffix.push(0x2e);
                suffix.push(0x65);
                suffix.push(0x6e);
                suffix.push(0x63);
                suffix.push(0x2e);
                suffix.push(0x67);
                suffix.push(0x7a);
                assert(suffix@ =~= seq![0x2eu8, 0x65u8, 0x6eu8, 0x63u8, 0x2eu8, 0x67u8, 0x7au8]);
                if crate::strbytes::ends_with_bytes(pb, suffix.as_slice()) {
                    let cut: usize = pb.len() - 7;
                    let stripped = slice_subrange(pb, 0, cut);
                    assert(stripped@ =~= pb@.take(cut as int));
                    proof {
                        vstd::utf8::encode_utf8_valid_utf8(p@);
                        if (cut as int) < pb@.len() {
                            assert(pb@[cut as int] == pb@.skip(pb@.len() - 7)[0]);
                        }
                        crate::strbytes::lemma_take_valid(pb@, cut as int);
                    }
                    Option::Some(bytes_into_string(slice_to_vec(stripped)))
                } else {
                    Option::Some(p.clone())
                }
            },
        }
    }

    /// The decompression the stored response body reference calls for, per
    /// the encoding-suffix table: the algorithm name and the target path
    /// without the suffix, when a suffix matches.
    pub fn uncompress_res_file_target(&self, exts: &Vec<(String, String)>) -> (r: Option<
        (String, String)>)
        requires
            forall|k: int|
                0 <= k < exts@.len() ==> vstd::utf8::is_ascii_chars(#[trigger] exts@[k].1@),
        ensures
            self.res_body_file is None ==> r is None,
            self.res_body_file matches Some(p) ==> {
                &&& (r is Some <==> spec_ext_match(encode_utf8(p@), exts@) is Some)
                &&& (r matches Some(t) ==> spec_ext_match(encode_utf8(p@), exts@) matches Some(m)
                    && t.0@ == exts@[m.0].0@ && encode_utf8(t.1@) == m.1)
            },
    {
        match &self.res_body_file {
            Option::None => Option::None,
            Option::Some(p) => strip_encoding_ext(p.as_str(), exts),
        }
    }
}

/// The UTF-8 bytes of a string, as an owned buffer.
fn str_bytes_vec(s: &str) -> (r: Vec<u8>)
    ensures
        r@ == encode_utf8(s@),
        valid_utf8(r@),
{
    proof {
        vstd::utf8::encode_utf8_valid_utf8(s@);
    }
    slice_to_vec(s.as_bytes())
}

/// The body-free summary of a record, for list display and filtering.
#[derive(Debug, Clone)]
pub struct TrafficHead {
    pub id: u64,
    pub method: String,
    pub uri: String,
    pub status: Option<u16>,
    pub size: Option<u64>,
    pub time: Option<u64>,
    pub mime: String,
    pub start_time: Option<u64>,
    pub transaction_state: TransactionState,
    pub websocket_id: Option<usize>,
    pub session_id: String,
}

/// The text a summary filter searches: uri, method, status (or `null`) and
/// MIME type, space-separated.
pub open spec fn spec_head_haystack(h: TrafficHead) -> Seq<u8> {
    encode_utf8(h.uri@) + lit(" ") + encode_utf8(h.method@) + lit(" ") + (match h.status {
        Option::Some(v) => spec_dec(v as nat),
        Option::None => lit("null"),
    }) + lit(" ") + encode_utf8(h.mime@)
}

impl TrafficHead {
    /// Substring filter over the summary's textual projection.
    pub fn test_filter(&self, value: &str) -> (r: bool)
        ensures
            r == spec_contains(spec_head_haystack(*self), encode_utf8(value@)),
    {
        let mut buf: Vec<u8> = Vec::new();
        push_str_bytes(&mut buf, self.uri.as_str());
        push_str_bytes(&mut buf, " ");
        push_str_bytes(&mut buf, self.method.as_str());
        push_str_bytes(&mut buf, " ");
        match self.status {
            Option::Some(v) => push_dec_u64(&mut buf, v as u64),
            Option::None => push_str_bytes(&mut buf, "null"),
        }
        push_str_bytes(&mut buf, " ");
        push_str_bytes(&mut buf, self.mime.as_str());
        assert(buf@ =~= spec_head_haystack(*self));
        contains_bytes(buf.as_slice(), value.as_bytes())
    }
}

} // verus!
