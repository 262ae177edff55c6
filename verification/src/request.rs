//! HTTP requests: methods, bodies, and parsing raw request bytes.

use std::any::Any;

use vstd::prelude::*;

use crate::context::{SharedState, StateMap};

use crate::decimal::{decimal, parse_usize, parse_usize_chars, push_decimal};
use crate::error::Error;
use crate::multipart::{boundary_of, find_boundary, multipart_fields, parse_multipart_fields, parts_view, MultipartField, PartView};
use crate::strmap::{MultiMap, StrMap};
use crate::text::{
    ascii_lower, chars_eq, chars_of, contains_seq, copy_range, find, has_prefix, is_ascii_seq,
    lossy_string, lowercase, push_all, starts_with, str_eq, string_of, to_lowercase, to_uppercase,
    uppercase, utf8_lossy,
};
use crate::url::{cookie_header, form_fields, parse_cookie_header, parse_form, parse_url, url_path, url_query};

verus! {

/// HTTP methods.
#[derive(Debug, Clone, Copy, PartialEq, Eq, Hash, Structural)]
pub enum Method {
    GET,
    POST,
    PUT,
    DELETE,
    PATCH,
    HEAD,
    OPTIONS,
    CONNECT,
    TRACE,
}

/// The name of a method.
pub open spec fn method_name(m: Method) -> Seq<char> {
    match m {
        Method::GET => "GET"@,
        Method::POST => "POST"@,
        Method::PUT => "PUT"@,
        Method::DELETE => "DELETE"@,
        Method::PATCH => "PATCH"@,
        Method::HEAD => "HEAD"@,
        Method::OPTIONS => "OPTIONS"@,
        Method::CONNECT => "CONNECT"@,
        Method::TRACE => "TRACE"@,
    }
}

/// The method named by upper-cased text; anything unknown is GET.
pub open spec fn method_of_upper(u: Seq<char>) -> Method {
    if u == "GET"@ {
        Method::GET
    } else if u == "POST"@ {
        Method::POST
    } else if u == "PUT"@ {
        Method::PUT
    } else if u == "DELETE"@ {
        Method::DELETE
    } else if u == "PATCH"@ {
        Method::PATCH
    } else if u == "HEAD"@ {
        Method::HEAD
    } else if u == "OPTIONS"@ {
        Method::OPTIONS
    } else if u == "CONNECT"@ {
        Method::CONNECT
    } else if u == "TRACE"@ {
        Method::TRACE
    } else {
        Method::GET
    }
}

/// The method named by `s` in any letter case (GET when unknown). ASCII
/// text is upper-cased letter by letter; other text as `str::to_uppercase`
/// does (the two agree on ASCII).
pub open spec fn method_from(s: Seq<char>) -> Method {
    if crate::text::is_ascii_seq(s) {
        method_of_upper(crate::text::ascii_upper(s))
    } else {
        method_of_upper(uppercase(s))
    }
}

fn upper_ascii(s: &str) -> (r: Option<String>)
    ensures
        match r {
            Some(u) => crate::text::is_ascii_seq(s@) && u@ == crate::text::ascii_upper(s@),
            None => !crate::text::is_ascii_seq(s@),
        },
{
    let v = chars_of(s);
    let mut out: Vec<char> = Vec::new();
    let mut i: usize = 0;
    while i < v.len()
        invariant
            i <= v@.len(),
            v@ == s@,
            out@ == crate::text::ascii_upper(v@.subrange(0, i as int)),
            crate::text::is_ascii_seq(v@.subrange(0, i as int)),
        decreases v@.len() - i,
    {
        let c = v[i];
        let u = c as u32;
        if u >= 128 {
            assert(!crate::text::is_ascii_seq(v@)) by {
                assert((v@[i as int] as u32) >= 128);
            }
            return None;
        }
        let up = if 97 <= u && u <= 122 {
            let l = u - 32;
            (l as u8) as char
        } else {
            c
        };
        assert(up == crate::text::ascii_upper_char(c));
        out.push(up);
        assert(crate::text::ascii_upper(v@.subrange(0, i + 1)) =~= crate::text::ascii_upper(v@.subrange(0, i as int)).push(
            crate::text::ascii_upper_char(c),
        ));
        assert(crate::text::is_ascii_seq(v@.subrange(0, i + 1))) by {
            assert forall|k: int| 0 <= k < i + 1 implies (#[trigger] v@.subrange(0, i + 1)[k] as u32) < 128 by {
                if k < i {
                    assert(v@.subrange(0, i + 1)[k] == v@.subrange(0, i as int)[k]);
                }
            }
        }
        i = i + 1;
    }
    assert(v@.subrange(0, v@.len() as int) =~= v@);
    Some(crate::text::string_of(out.as_slice()))
}

impl Method {
    /// The method's name.
    pub fn as_str(&self) -> (s: &'static str)
        ensures
            s@ == method_name(*self),
    {
        match self {
            Method::GET => "GET",
            Method::POST => "POST",
            Method::PUT => "PUT",
            Method::DELETE => "DELETE",
            Method::PATCH => "PATCH",
            Method::HEAD => "HEAD",
            Method::OPTIONS => "OPTIONS",
            Method::CONNECT => "CONNECT",
            Method::TRACE => "TRACE",
        }
    }

    /// The method's name as an owned string.
    pub fn to_string(&self) -> (s: String)
        ensures
            s@ == method_name(*self),
    {
        self.as_str().to_owned()
    }

    /// Parses a method name in any letter case; unknown names give GET.
    pub fn from_str(s: &str) -> (m: Self)
        ensures
            m == method_from(s@),
    {
        let up = match upper_ascii(s) {
            Some(u) => u,
            None => to_uppercase(s),
        };
        let u = up.as_str();
        if str_eq(u, "GET") {
            Method::GET
        } else if str_eq(u, "POST") {
            Method::POST
        } else if str_eq(u, "PUT") {
            Method::PUT
        } else if str_eq(u, "DELETE") {
            Method::DELETE
        } else if str_eq(u, "PATCH") {
            Method::PATCH
        } else if str_eq(u, "HEAD") {
            Method::HEAD
        } else if str_eq(u, "OPTIONS") {
            Method::OPTIONS
        } else if str_eq(u, "CONNECT") {
            Method::CONNECT
        } else if str_eq(u, "TRACE") {
            Method::TRACE
        } else {
            Method::GET
        }
    }
}

/// Parsing the name of a method gives the method back.
pub proof fn law_method_name_roundtrip(m: Method)
    ensures
        method_from(method_name(m)) == m,
{
    reveal_strlit("GET");
    reveal_strlit("POST");
    reveal_strlit("PUT");
    reveal_strlit("DELETE");
    reveal_strlit("PATCH");
    reveal_strlit("HEAD");
    reveal_strlit("OPTIONS");
    reveal_strlit("CONNECT");
    reveal_strlit("TRACE");
    let n = method_name(m);
    assert(crate::text::is_ascii_seq(n));
    assert(crate::text::ascii_upper(n) =~= n);
    match m {
        Method::GET => {},
        Method::POST => {
            assert(n != "GET"@);
        },
        Method::PUT => {
            assert(n[0] != "GET"@[0]);
            assert(n != "GET"@ && n != "POST"@);
        },
        Method::DELETE => {
            assert(n != "GET"@ && n != "POST"@ && n != "PUT"@);
        },
        Method::PATCH => {
            assert(n != "GET"@ && n != "POST"@ && n != "PUT"@ && n != "DELETE"@);
        },
        Method::HEAD => {
            assert(n[0] != "POST"@[0]);
            assert(n != "GET"@ && n != "POST"@ && n != "PUT"@ && n != "DELETE"@ && n != "PATCH"@);
        },
        Method::OPTIONS => {
            assert(n != "GET"@ && n != "POST"@ && n != "PUT"@ && n != "DELETE"@ && n != "PATCH"@ && n != "HEAD"@);
        },
        Method::CONNECT => {
            assert(n[0] != "OPTIONS"@[0]);
            assert(n != "GET"@ && n != "POST"@ && n != "PUT"@ && n != "DELETE"@ && n != "PATCH"@ && n != "HEAD"@
                && n != "OPTIONS"@);
        },
        Method::TRACE => {
            assert(n[0] != "PATCH"@[0]);
            assert(n != "GET"@ && n != "POST"@ && n != "PUT"@ && n != "DELETE"@ && n != "PATCH"@ && n != "HEAD"@
                && n != "OPTIONS"@ && n != "CONNECT"@);
        },
    }
}

#[verifier::external_type_specification]
#[verifier::external_body]
pub struct ExJsonValue(serde_json::Value);

/// Whether `serde_json::from_slice::<serde_json::Value>` accepts `b`.
pub uninterp spec fn json_parses(b: Seq<u8>) -> bool;

/// The JSON value `serde_json::from_slice::<serde_json::Value>` reads
/// from `b`, when it accepts `b`.
pub uninterp spec fn json_value_of(b: Seq<u8>) -> serde_json::Value;

/// `serde_json::from_slice` into a JSON value; `None` when `b` is not
/// JSON. Whether it succeeds, and the value, are a function of `b` alone.
#[verifier::external_body]
fn json_from_bytes(b: &[u8]) -> (r: Option<serde_json::Value>)
    ensures
        r is Some <==> json_parses(b@),
        r matches Some(v) ==> v == json_value_of(b@),
{
    serde_json::from_slice(b).ok()
}

/// The compact JSON text `Value::to_string` renders for `v`.
pub uninterp spec fn json_rendered(v: serde_json::Value) -> Seq<char>;

/// A JSON value rendered as compact JSON text (`Value::to_string`).
#[verifier::external_body]
fn json_text(v: &serde_json::Value) -> (s: String)
    ensures
        s@ == json_rendered(*v),
{
    v.to_string()
}

/// The parsed body of a request.
#[derive(Debug)]
pub enum Body {
    /// Plain text body.
    Text(String),
    /// Parsed JSON value.
    Json(serde_json::Value),
    /// URL-encoded form data.
    Form(StrMap),
    /// Multipart form data.
    Multipart(Vec<MultipartField>),
    /// Raw binary data.
    Binary(Vec<u8>),
    /// No body.
    Empty,
}

/// A body as values (a JSON body holds the parsed value).
pub enum BodyView {
    Text(Seq<char>),
    Json(serde_json::Value),
    Form(Map<Seq<char>, Seq<char>>),
    Multipart(Seq<PartView>),
    Binary(Seq<u8>),
    Empty,
}

impl View for Body {
    type V = BodyView;

    open spec fn view(&self) -> BodyView {
        match self {
            Body::Text(s) => BodyView::Text(s@),
            Body::Json(v) => BodyView::Json(*v),
            Body::Form(m) => BodyView::Form(m@),
            Body::Multipart(f) => BodyView::Multipart(parts_view(f@)),
            Body::Binary(b) => BodyView::Binary(b@),
            Body::Empty => BodyView::Empty,
        }
    }
}

/// How a body is read according to the `Content-Type`: JSON (text when it
/// does not parse), URL-encoded form, multipart (binary without a
/// boundary), text, or binary; an empty body is `Empty`.
pub open spec fn body_of(content_type: Option<Seq<char>>, raw: Seq<u8>) -> BodyView {
    let ct = match content_type {
        Some(c) => c,
        None => Seq::empty(),
    };
    if raw.len() == 0 {
        BodyView::Empty
    } else if has_prefix(ct, "application/json"@) {
        if json_parses(raw) {
            BodyView::Json(json_value_of(raw))
        } else {
            BodyView::Text(utf8_lossy(raw))
        }
    } else if has_prefix(ct, "application/x-www-form-urlencoded"@) {
        BodyView::Form(form_fields(utf8_lossy(raw)))
    } else if has_prefix(ct, "multipart/form-data"@) {
        match boundary_of(ct) {
            Some(b) => BodyView::Multipart(multipart_fields(b, raw)),
            None => BodyView::Binary(raw),
        }
    } else if has_prefix(ct, "text/"@) {
        BodyView::Text(utf8_lossy(raw))
    } else {
        BodyView::Binary(raw)
    }
}

fn lit_prefix(v: &[char], lit: &str) -> (b: bool)
    ensures
        b == has_prefix(v@, lit@),
{
    let p = chars_of(lit);
    starts_with(v, p.as_slice())
}

/// Parses a request body according to its content type.
pub fn parse_body(content_type: Option<&String>, raw: &[u8]) -> (b: Body)
    ensures
        b@ == body_of(
            match content_type {
                Some(c) => Some(c@),
                None => None,
            },
            raw@,
        ),
{
    if raw.len() == 0 {
        return Body::Empty;
    }
    assert(raw@.subrange(0, raw@.len() as int) =~= raw@);
    let ct: Vec<char> = match content_type {
        Some(c) => chars_of(c.as_str()),
        None => Vec::new(),
    };
    if lit_prefix(ct.as_slice(), "application/json") {
        match json_from_bytes(raw) {
            Some(v) => Body::Json(v),
            None => Body::Text(lossy_string(raw)),
        }
    } else if lit_prefix(ct.as_slice(), "application/x-www-form-urlencoded") {
        let text = lossy_string(raw);
        Body::Form(parse_form(text.as_str()))
    } else if lit_prefix(ct.as_slice(), "multipart/form-data") {
        let cts = string_of(ct.as_slice());
        match find_boundary(cts.as_str()) {
            Some(b) => Body::Multipart(parse_multipart_fields(b.as_str(), raw)),
            None => Body::Binary(copy_range(raw, 0, raw.len())),
        }
    } else if lit_prefix(ct.as_slice(), "text/") {
        Body::Text(lossy_string(raw))
    } else {
        let b = copy_range(raw, 0, raw.len());
        assert(raw@.subrange(0, raw@.len() as int) =~= raw@);
        Body::Binary(b)
    }
}

/// Where a typed JSON read of a request body starts.
pub enum JsonInput<'a> {
    /// The body parsed as JSON.
    Value(&'a serde_json::Value),
    /// The raw body bytes.
    Raw(&'a [u8]),
}

/// The remote end of a connection.
#[derive(Debug, Clone)]
pub struct PeerAddr {
    /// The IP address as text.
    pub ip: String,
    /// The port.
    pub port: u16,
}

/// A fully parsed HTTP request.
#[derive(Debug)]
pub struct Request {
    /// HTTP method.
    pub method: Method,
    /// Request path without query string.
    pub path: String,
    /// Full request target including query string.
    pub uri: String,
    /// HTTP version string, e.g. `HTTP/1.1`.
    pub http_version: String,
    /// Request headers (lower-case names).
    pub headers: StrMap,
    /// Query parameters (several values per key).
    pub query: MultiMap,
    /// Path parameters extracted from route patterns.
    pub params: StrMap,
    /// Parsed body.
    pub body: Body,
    /// Raw body bytes.
    pub raw_body: Vec<u8>,
    /// Cookies from the `Cookie` header.
    pub cookies: StrMap,
    /// Remote address of the client.
    pub remote_addr: Option<PeerAddr>,
    /// Per-request values that middleware share with handlers.
    pub extensions: StateMap,
    /// Shared application state (set by the server).
    pub state: Option<SharedState>,
}

/// The header lines of a request head as found on the wire.
pub struct RawHead {
    pub method: Option<String>,
    pub path: Option<String>,
    pub version: Option<u8>,
    pub headers: Vec<(String, Vec<u8>)>,
    pub body_offset: usize,
}

/// A request head as values.
pub struct RawHeadView {
    pub method: Option<Seq<char>>,
    pub path: Option<Seq<char>>,
    pub version: Option<u8>,
    pub headers: Seq<(Seq<char>, Seq<u8>)>,
    pub body_offset: nat,
}

pub open spec fn opt_str(o: Option<String>) -> Option<Seq<char>> {
    match o {
        Some(s) => Some(s@),
        None => None,
    }
}

impl View for RawHead {
    type V = RawHeadView;

    open spec fn view(&self) -> RawHeadView {
        RawHeadView {
            method: opt_str(self.method),
            path: opt_str(self.path),
            version: self.version,
            headers: self.headers@.map_values(|h: (String, Vec<u8>)| (h.0@, h.1@)),
            body_offset: self.body_offset as nat,
        }
    }
}

/// The outcome of reading a request head.
pub enum HeadParse {
    Complete(RawHead),
    Partial,
    Invalid(String),
}

pub enum HeadParseView {
    Complete(RawHeadView),
    Partial,
    Invalid(Seq<char>),
}

impl View for HeadParse {
    type V = HeadParseView;

    open spec fn view(&self) -> HeadParseView {
        match self {
            HeadParse::Complete(h) => HeadParseView::Complete(h@),
            HeadParse::Partial => HeadParseView::Partial,
            HeadParse::Invalid(m) => HeadParseView::Invalid(m@),
        }
    }
}

/// What `httparse::Request::parse` (with room for 128 headers) makes of a
/// buffer: the method, target, minor version and headers with the offset of
/// the body, or that more bytes are needed, or an error message.
pub uninterp spec fn http_head(buf: Seq<u8>) -> HeadParseView;

/// `httparse::Request::parse` with room for 128 headers. On a complete head
/// the body offset is at most the buffer length.
#[verifier::external_body]
fn read_head(buf: &[u8]) -> (r: HeadParse)
    ensures
        r@ == http_head(buf@),
        r matches HeadParse::Complete(h) ==> h.body_offset <= buf@.len(),
{
    let mut hs = [httparse::EMPTY_HEADER; 128];
    let mut req = httparse::Request::new(&mut hs);
    match req.parse(buf) {
        Ok(httparse::Status::Complete(off)) => HeadParse::Complete(RawHead {
            method: req.method.map(|m| m.to_string()),
            path: req.path.map(|p| p.to_string()),
            version: req.version,
            headers: req.headers.iter().map(|h| (h.name.to_string(), h.value.to_vec())).collect(),
            body_offset: off,
        }),
        Ok(httparse::Status::Partial) => HeadParse::Partial,
        Err(e) => HeadParse::Invalid(e.to_string()),
    }
}

/// The header map of a request: names lower-cased, values decoded as
/// UTF-8 (lossily); a later header replaces an earlier one of the same name.
pub open spec fn headers_map(hs: Seq<(Seq<char>, Seq<u8>)>) -> Map<Seq<char>, Seq<char>>
    decreases hs.len(),
{
    if hs.len() == 0 {
        Map::empty()
    } else {
        headers_map(hs.drop_last()).insert(lowercase(hs.last().0), utf8_lossy(hs.last().1))
    }
}

/// The `Content-Length` of a request (0 when absent or not a number).
pub open spec fn content_length(h: Map<Seq<char>, Seq<char>>) -> nat {
    if h.contains_key("content-length"@) {
        match parse_usize(h["content-length"@]) {
            Some(n) => n,
            None => 0,
        }
    } else {
        0
    }
}

/// The raw body: up to `Content-Length` bytes after the head.
pub open spec fn raw_body_of(buf: Seq<u8>, offset: nat, len: nat) -> Seq<u8> {
    if len > 0 && offset < buf.len() {
        let end: int = if offset + len < buf.len() {
            (offset + len) as int
        } else {
            buf.len() as int
        };
        buf.subrange(offset as int, end)
    } else {
        Seq::empty()
    }
}

/// The request target of a head (`/` when absent).
pub open spec fn target_of(h: RawHeadView) -> Seq<char> {
    match h.path {
        Some(p) => p,
        None => "/"@,
    }
}

impl Request {
    /// This request is what `buf` with head `h` describes.
    pub open spec fn parsed_from(&self, buf: Seq<u8>, h: RawHeadView) -> bool {
        let hm = headers_map(h.headers);
        let raw = raw_body_of(buf, h.body_offset, content_length(hm));
        &&& self.method == method_from(
            match h.method {
                Some(m) => m,
                None => "GET"@,
            },
        )
        &&& self.uri@ == target_of(h)
        &&& self.path@ == url_path(target_of(h))
        &&& self.query@ == url_query(target_of(h))
        &&& self.http_version@ == "HTTP/1."@ + decimal(
            (match h.version {
                Some(v) => v,
                None => 1u8,
            }) as nat,
        )
        &&& self.headers@ == hm
        &&& self.raw_body@ == raw
        &&& self.body@ == body_of(
            if hm.contains_key("content-type"@) {
                Some(hm["content-type"@])
            } else {
                None
            },
            raw,
        )
        &&& self.cookies@ == (if hm.contains_key("cookie"@) {
            cookie_header(hm["cookie"@])
        } else {
            Map::empty()
        })
        &&& self.params@ == Map::<Seq<char>, Seq<char>>::empty()
        &&& self.remote_addr is None
        &&& self.extensions.keys() == Set::<Seq<char>>::empty()
        &&& self.state is None
    }

    /// Builds a request from its raw bytes and the head read from them.
    pub fn from_head(buffer: &[u8], head: RawHead) -> (r: Request)
        ensures
            r.parsed_from(buffer@, head@),
    {
        let ghost hv = head@;
        let method = match &head.method {
            Some(m) => Method::from_str(m.as_str()),
            None => Method::from_str("GET"),
        };
        let full_path: String = match &head.path {
            Some(p) => p.clone(),
            None => "/".to_owned(),
        };
        let mut vchars = chars_of("HTTP/1.");
        let version: u8 = match head.version {
            Some(v) => v,
            None => 1,
        };
        push_decimal(&mut vchars, version as u64);
        let http_version = string_of(vchars.as_slice());
        let mut headers = StrMap::new();
        let ghost hs = hv.headers;
        let mut i: usize = 0;
        while i < head.headers.len()
            invariant
                i <= head.headers@.len(),
                hs == head@.headers,
                headers@ == headers_map(hs.subrange(0, i as int)),
            decreases head.headers@.len() - i,
        {
            let name = to_lowercase(head.headers[i].0.as_str());
            let value = lossy_string(head.headers[i].1.as_slice());
            headers.insert(name, value);
            assert(hs.subrange(0, i + 1).drop_last() =~= hs.subrange(0, i as int));
            i = i + 1;
        }
        assert(hs.subrange(0, head.headers@.len() as int) =~= hs);
        let (path, query) = parse_url(full_path.as_str());
        let cl: usize = match headers.get("content-length") {
            Some(v) => {
                let vc = chars_of(v.as_str());
                match parse_usize_chars(vc.as_slice()) {
                    Some(n) => n,
                    None => 0,
                }
            },
            None => 0,
        };
        let off = head.body_offset;
        let raw_body: Vec<u8> = if cl > 0 && off < buffer.len() {
            let end = if cl < buffer.len() - off {
                off + cl
            } else {
                buffer.len()
            };
            copy_range(buffer, off, end)
        } else {
            Vec::new()
        };
        let body = parse_body(headers.get("content-type"), raw_body.as_slice());
        let cookies = match headers.get("cookie") {
            Some(c) => parse_cookie_header(c.as_str()),
            None => StrMap::new(),
        };
        Request {
            method,
            path,
            uri: full_path,
            http_version,
            headers,
            query,
            params: StrMap::new(),
            body,
            raw_body,
            cookies,
            remote_addr: None,
            extensions: StateMap::new(),
            state: None,
        }
    }

    /// Parses raw bytes into a request.
    ///
    /// Fails with `Error::Parse` when the head is malformed or incomplete.
    pub fn parse(buffer: &[u8]) -> (r: Result<Request, Error>)
        ensures
            match http_head(buffer@) {
                HeadParseView::Complete(h) => r matches Ok(req) && req.parsed_from(buffer@, h),
                HeadParseView::Partial => r matches Err(Error::Parse(m)) && m@ == "Incomplete HTTP request"@,
                HeadParseView::Invalid(msg) => r matches Err(Error::Parse(m)) && m@ == msg,
            },
    {
        match read_head(buffer) {
            HeadParse::Complete(h) => Ok(Request::from_head(buffer, h)),
            HeadParse::Partial => Err(Error::Parse("Incomplete HTTP request".to_owned())),
            HeadParse::Invalid(m) => Err(Error::Parse(m)),
        }
    }
}

} // verus!

verus! {

/// `str::eq_ignore_ascii_case`.
pub open spec fn eq_ignore_ascii_case(a: Seq<char>, b: Seq<char>) -> bool {
    ascii_lower(a) == ascii_lower(b)
}

fn lower_char(c: char) -> (r: char)
    ensures
        r == crate::text::ascii_lower_char(c),
{
    let u = c as u32;
    if 65 <= u && u <= 90 {
        let l = u + 32;
        assert(l == (c as u32) + 32);
        (l as u8) as char
    } else {
        c
    }
}

pub(crate) fn chars_eq_ignore_ascii_case(a: &[char], b: &[char]) -> (r: bool)
    ensures
        r == eq_ignore_ascii_case(a@, b@),
{
    if a.len() != b.len() {
        assert(ascii_lower(a@).len() != ascii_lower(b@).len());
        return false;
    }
    let mut i: usize = 0;
    while i < a.len()
        invariant
            a@.len() == b@.len(),
            i <= a@.len(),
            forall|k: int| 0 <= k < i ==> crate::text::ascii_lower_char(a@[k]) == crate::text::ascii_lower_char(b@[k]),
        decreases a@.len() - i,
    {
        if lower_char(a[i]) != lower_char(b[i]) {
            assert(ascii_lower(a@)[i as int] != ascii_lower(b@)[i as int]);
            return false;
        }
        i = i + 1;
    }
    assert(ascii_lower(a@) =~= ascii_lower(b@));
    true
}

/// Does `needle` occur in `hay`?
fn contains_chars(hay: &[char], needle: &[char]) -> (b: bool)
    ensures
        b == contains_seq(hay@, needle@),
{
    match crate::text::find_from(hay, needle, 0) {
        Some(_) => true,
        None => {
            assert forall|j: int| !crate::text::occurs_at(hay@, needle@, j) by {
                if j < 0 {
                }
            }
            false
        },
    }
}

impl Request {
    /// The lower-cased view of a header name given in any case.
    pub open spec fn header_value(&self, key: Seq<char>) -> Option<Seq<char>> {
        let k = lowercase(key);
        if self.headers@.contains_key(k) {
            Some(self.headers@[k])
        } else {
            None
        }
    }

    /// The first value of a query parameter.
    pub fn query_param(&self, key: &str) -> (r: Option<&str>)
        ensures
            match r {
                Some(v) => self.query@.contains_key(key@) && self.query@[key@].len() > 0
                    && self.query@[key@][0] == v@,
                None => !self.query@.contains_key(key@) || self.query@[key@].len() == 0,
            },
    {
        match self.query.first(key) {
            Some(s) => Some(s.as_str()),
            None => None,
        }
    }

    /// All values of a query parameter.
    pub fn query_params(&self, key: &str) -> (r: Option<&Vec<String>>)
        ensures
            match r {
                Some(v) => self.query@.contains_key(key@) && self.query@[key@]
                    == crate::strmap::strings_view(v@),
                None => !self.query@.contains_key(key@),
            },
    {
        self.query.get(key)
    }

    /// A path parameter (from route patterns like `:id`).
    pub fn param(&self, key: &str) -> (r: Option<&str>)
        ensures
            match r {
                Some(v) => self.params@.contains_key(key@) && self.params@[key@] == v@,
                None => !self.params@.contains_key(key@),
            },
    {
        match self.params.get(key) {
            Some(s) => Some(s.as_str()),
            None => None,
        }
    }

    /// A header value; the name is matched after lower-casing it.
    pub fn header(&self, key: &str) -> (r: Option<&str>)
        ensures
            match r {
                Some(v) => self.header_value(key@) == Some(v@),
                None => self.header_value(key@) is None,
            },
            is_ascii_seq(key@) ==> match r {
                Some(v) => self.headers@.contains_key(ascii_lower(key@)) && self.headers@[ascii_lower(key@)] == v@,
                None => !self.headers@.contains_key(ascii_lower(key@)),
            },
    {
        let k = to_lowercase(key);
        match self.headers.get(k.as_str()) {
            Some(s) => Some(s.as_str()),
            None => None,
        }
    }

    /// A cookie value by name.
    pub fn cookie(&self, name: &str) -> (r: Option<&str>)
        ensures
            match r {
                Some(v) => self.cookies@.contains_key(name@) && self.cookies@[name@] == v@,
                None => !self.cookies@.contains_key(name@),
            },
    {
        match self.cookies.get(name) {
            Some(s) => Some(s.as_str()),
            None => None,
        }
    }

    /// The body as text: a text body itself, a JSON body rendered as JSON,
    /// anything else the raw body decoded as UTF-8 (lossily).
    pub fn text(&self) -> (s: String)
        ensures
            self.body matches Body::Text(t) ==> s@ == t@,
            self.body matches Body::Json(v) ==> s@ == json_rendered(v),
            !(self.body is Text) && !(self.body is Json) ==> s@ == utf8_lossy(self.raw_body@),
    {
        match &self.body {
            Body::Text(s) => s.clone(),
            Body::Json(v) => json_text(v),
            _ => lossy_string(self.raw_body.as_slice()),
        }
    }

    /// A field of a URL-encoded form body.
    pub fn form_field(&self, key: &str) -> (r: Option<&str>)
        ensures
            match r {
                Some(v) => self.body@ matches BodyView::Form(m) && m.contains_key(key@) && m[key@] == v@,
                None => !(self.body@ matches BodyView::Form(m) && m.contains_key(key@)),
            },
    {
        match &self.body {
            Body::Form(map) => match map.get(key) {
                Some(s) => Some(s.as_str()),
                None => None,
            },
            _ => None,
        }
    }

    /// The fields of a multipart body.
    pub fn multipart_fields(&self) -> (r: Option<&Vec<MultipartField>>)
        ensures
            match r {
                Some(f) => self.body@ == BodyView::Multipart(parts_view(f@)),
                None => !(self.body is Multipart),
            },
    {
        match &self.body {
            Body::Multipart(fields) => Some(fields),
            _ => None,
        }
    }

    /// The first multipart field with the given name.
    pub fn multipart_field(&self, name: &str) -> (r: Option<&MultipartField>)
        ensures
            match r {
                Some(f) => self.body matches Body::Multipart(fs) && f.name@ == name@ && exists|i: int|
                    0 <= i < fs@.len() && #[trigger] fs@[i] == *f && forall|j: int|
                        0 <= j < i ==> fs@[j].name@ != name@,
                None => self.body matches Body::Multipart(fs) ==> forall|j: int|
                    0 <= j < fs@.len() ==> fs@[j].name@ != name@,
            },
    {
        match &self.body {
            Body::Multipart(fields) => {
                let nm = name.to_owned();
                let mut i: usize = 0;
                while i < fields.len()
                    invariant
                        i <= fields@.len(),
                        nm@ == name@,
                        self.body matches Body::Multipart(fs) && fs == *fields,
                        forall|j: int| 0 <= j < i ==> fields@[j].name@ != name@,
                    decreases fields@.len() - i,
                {
                    if fields[i].name == nm {
                        let f = &fields[i];
                        assert(fields@[i as int] == *f);
                        return Some(f);
                    }
                    i = i + 1;
                }
                None
            },
            _ => None,
        }
    }

    /// The `Content-Type` header value.
    pub fn content_type(&self) -> (r: Option<&str>)
        ensures
            match r {
                Some(v) => self.header_value("content-type"@) == Some(v@),
                None => self.header_value("content-type"@) is None,
            },
    {
        self.header("content-type")
    }

    /// Whether the `Accept` header includes `content_type` or `*/*`.
    pub fn accepts(&self, content_type: &str) -> (b: bool)
        ensures
            b == (self.header_value("accept"@) matches Some(a) && (contains_seq(a, content_type@)
                || contains_seq(a, "*/*"@))),
    {
        match self.header("accept") {
            Some(a) => {
                let av = chars_of(a);
                let cv = chars_of(content_type);
                let star = chars_of("*/*");
                contains_chars(av.as_slice(), cv.as_slice()) || contains_chars(
                    av.as_slice(),
                    star.as_slice(),
                )
            },
            None => false,
        }
    }

    /// Whether this is a WebSocket upgrade request: `Upgrade: websocket`
    /// (any ASCII case) and a `Connection` header containing `upgrade` once
    /// lower-cased.
    pub fn is_websocket_upgrade(&self) -> (b: bool)
        ensures
            b == ((self.header_value("upgrade"@) matches Some(u) && eq_ignore_ascii_case(
                u,
                "websocket"@,
            )) && (self.header_value("connection"@) matches Some(c) && contains_seq(
                lowercase(c),
                "upgrade"@,
            ))),
    {
        let up = match self.header("upgrade") {
            Some(u) => {
                let uv = chars_of(u);
                let ws = chars_of("websocket");
                chars_eq_ignore_ascii_case(uv.as_slice(), ws.as_slice())
            },
            None => false,
        };
        if !up {
            return false;
        }
        match self.header("connection") {
            Some(c) => {
                let low = to_lowercase(c);
                let lv = chars_of(low.as_str());
                let uv = chars_of("upgrade");
                contains_chars(lv.as_slice(), uv.as_slice())
            },
            None => false,
        }
    }

    /// `<method> <path> <version>`.
    pub fn to_string(&self) -> (s: String)
        ensures
            s@ == method_name(self.method) + " "@ + self.path@ + " "@ + self.http_version@,
    {
        let mut v = chars_of(self.method.as_str());
        let sp = chars_of(" ");
        push_all(&mut v, sp.as_slice());
        let p = chars_of(self.path.as_str());
        push_all(&mut v, p.as_slice());
        push_all(&mut v, sp.as_slice());
        let h = chars_of(self.http_version.as_str());
        push_all(&mut v, h.as_slice());
        string_of(v.as_slice())
    }

    /// What a typed JSON read of the body starts from: the parsed JSON
    /// value, else the raw bytes when there are any; a request without a
    /// body is a bad request.
    pub fn json_input(&self) -> (r: Result<JsonInput<'_>, Error>)
        ensures
            match r {
                Ok(JsonInput::Value(_)) => self.body is Json,
                Ok(JsonInput::Raw(b)) => !(self.body is Json) && b@ == self.raw_body@ && b@.len() > 0,
                Err(e) => {
                    &&& !(self.body is Json)
                    &&& self.raw_body@.len() == 0
                    &&& e matches Error::BadRequest(m) && m@ == "No JSON body found"@
                },
            },
    {
        match &self.body {
            Body::Json(v) => Ok(JsonInput::Value(v)),
            _ => if self.raw_body.len() > 0 {
                Ok(JsonInput::Raw(self.raw_body.as_slice()))
            } else {
                Err(Error::BadRequest("No JSON body found".to_owned()))
            },
        }
    }

    /// Stores a per-request value under `key`.
    pub fn set_extension<T: Any + Send + Sync>(&mut self, key: &str, value: T)
        ensures
            final(self).extensions.keys() == old(self).extensions.keys().insert(key@),
            *final(self) == (Request { extensions: final(self).extensions, ..*old(self) }),
    {
        self.extensions.insert(key, value);
    }

    /// The per-request value under `key`, when it has type `T`.
    pub fn get_extension<T: Any + Send + Sync>(&self, key: &str) -> (r: Option<&T>)
        ensures
            !self.extensions.keys().contains(key@) ==> r is None,
    {
        self.extensions.get::<T>(key)
    }

    /// The per-request value under `key`, for changing, when it has type
    /// `T`.
    pub fn get_extension_mut<T: Any + Send + Sync>(&mut self, key: &str) -> (r: Option<&mut T>)
        ensures
            final(self).extensions.keys() == old(self).extensions.keys(),
            !old(self).extensions.keys().contains(key@) ==> r is None,
    {
        self.extensions.get_mut::<T>(key)
    }

    /// The shared application state, when the server set one.
    pub fn app_state(&self) -> (r: Option<&SharedState>)
        ensures
            match r {
                Some(s) => self.state == Some(*s),
                None => self.state is None,
            },
    {
        match &self.state {
            Some(s) => Some(s),
            None => None,
        }
    }
}

} // verus!
