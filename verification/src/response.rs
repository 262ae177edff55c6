//! HTTP responses: status, headers, cookies, body, and their wire format.

use vstd::prelude::*;

use crate::cookie::{cookie_text, CookieBuilder, CookieView};
use crate::decimal::{decimal, push_decimal};
use crate::strmap::StrMap;
use crate::text::{chars_of, copy_range, encode_chars, lowercase, push_all, str_eq, to_lowercase, utf8_bytes};
use vstd::utf8::encode_utf8;

verus! {

/// The reason phrase sent with a status code.
pub open spec fn status_reason(code: u16) -> Seq<char> {
    if code == 100 {
        "Continue"@
    } else if code == 101 {
        "Switching Protocols"@
    } else if code == 200 {
        "OK"@
    } else if code == 201 {
        "Created"@
    } else if code == 202 {
        "Accepted"@
    } else if code == 204 {
        "No Content"@
    } else if code == 301 {
        "Moved Permanently"@
    } else if code == 302 {
        "Found"@
    } else if code == 303 {
        "See Other"@
    } else if code == 304 {
        "Not Modified"@
    } else if code == 307 {
        "Temporary Redirect"@
    } else if code == 308 {
        "Permanent Redirect"@
    } else if code == 400 {
        "Bad Request"@
    } else if code == 401 {
        "Unauthorized"@
    } else if code == 403 {
        "Forbidden"@
    } else if code == 404 {
        "Not Found"@
    } else if code == 405 {
        "Method Not Allowed"@
    } else if code == 408 {
        "Request Timeout"@
    } else if code == 409 {
        "Conflict"@
    } else if code == 413 {
        "Payload Too Large"@
    } else if code == 415 {
        "Unsupported Media Type"@
    } else if code == 422 {
        "Unprocessable Entity"@
    } else if code == 429 {
        "Too Many Requests"@
    } else if code == 500 {
        "Internal Server Error"@
    } else if code == 501 {
        "Not Implemented"@
    } else if code == 502 {
        "Bad Gateway"@
    } else if code == 503 {
        "Service Unavailable"@
    } else if code == 504 {
        "Gateway Timeout"@
    } else {
        "Unknown"@
    }
}

/// Returns the standard reason phrase for an HTTP status code.
pub fn status_text(code: u16) -> (s: &'static str)
    ensures
        s@ == status_reason(code),
{
    match code {
        100 => "Continue",
        101 => "Switching Protocols",
        200 => "OK",
        201 => "Created",
        202 => "Accepted",
        204 => "No Content",
        301 => "Moved Permanently",
        302 => "Found",
        303 => "See Other",
        304 => "Not Modified",
        307 => "Temporary Redirect",
        308 => "Permanent Redirect",
        400 => "Bad Request",
        401 => "Unauthorized",
        403 => "Forbidden",
        404 => "Not Found",
        405 => "Method Not Allowed",
        408 => "Request Timeout",
        409 => "Conflict",
        413 => "Payload Too Large",
        415 => "Unsupported Media Type",
        422 => "Unprocessable Entity",
        429 => "Too Many Requests",
        500 => "Internal Server Error",
        501 => "Not Implemented",
        502 => "Bad Gateway",
        503 => "Service Unavailable",
        504 => "Gateway Timeout",
        _ => "Unknown",
    }
}

/// What `mime_guess::from_path(path).first_or_octet_stream()` renders to:
/// the MIME type registered for the path's extension.
pub uninterp spec fn guessed_mime(path: Seq<char>) -> Seq<char>;

/// The MIME type for a file path, guessed from its extension
/// (`application/octet-stream` when unknown).
#[verifier::external_body]
pub(crate) fn mime_for_path(path: &str) -> (m: String)
    ensures
        m@ == guessed_mime(path@),
{
    mime_guess::from_path(path).first_or_octet_stream().to_string()
}

/// An HTTP response being built.
///
/// Handlers fill in status, headers and body; the server then writes the
/// bytes that [`Response::to_bytes`] produces.
#[derive(Debug)]
pub struct Response {
    /// HTTP status code.
    pub status_code: u16,
    /// Response headers.
    pub headers: StrMap,
    /// `Set-Cookie` values, one header line each.
    pub set_cookies: Vec<String>,
    /// Body bytes.
    pub body: Vec<u8>,
    /// Whether a body has been set.
    pub sent: bool,
    /// Whether this is a WebSocket upgrade response.
    pub is_upgrade: bool,
}

/// The `Content-Type` a plain text body gets when none was set.
pub open spec fn default_content_type(h: Map<Seq<char>, Seq<char>>, ct: Seq<char>) -> Map<
    Seq<char>,
    Seq<char>,
> {
    if h.contains_key("content-type"@) {
        h
    } else {
        h.insert("content-type"@, ct)
    }
}

/// The body written when serialization to JSON failed with `msg`.
pub open spec fn json_error_body(msg: Seq<char>) -> Seq<char> {
    "{\"error\":\"JSON serialization failed: "@ + msg + "\"}"@
}

/// One header line.
pub open spec fn header_line(k: Seq<char>, v: Seq<char>) -> Seq<char> {
    k + ": "@ + v + "\r\n"@
}

/// The header lines for a list of entries, in order.
pub open spec fn header_lines(e: Seq<(Seq<char>, Seq<char>)>) -> Seq<char>
    decreases e.len(),
{
    if e.len() == 0 {
        Seq::empty()
    } else {
        header_lines(e.drop_last()) + header_line(e.last().0, e.last().1)
    }
}

/// One of the entries is a `Content-Length` header (in any letter case).
pub open spec fn has_content_length(e: Seq<(Seq<char>, Seq<char>)>) -> bool {
    exists|i: int| 0 <= i < e.len() && lowercase(#[trigger] e[i].0) == "content-length"@
}

/// The `Set-Cookie` header lines.
pub open spec fn cookie_lines(c: Seq<Seq<char>>) -> Seq<char>
    decreases c.len(),
{
    if c.len() == 0 {
        Seq::empty()
    } else {
        cookie_lines(c.drop_last()) + "Set-Cookie: "@ + c.last() + "\r\n"@
    }
}

pub open spec fn string_views(v: Seq<String>) -> Seq<Seq<char>> {
    v.map_values(|s: String| s@)
}

/// The status line and headers of a response, up to and including the
/// blank line: the status line, the headers in order, a `Content-Length`
/// line unless a header of that name is present, the cookies, and CRLF.
pub open spec fn head_text(
    code: u16,
    e: Seq<(Seq<char>, Seq<char>)>,
    body_len: nat,
    cookies: Seq<Seq<char>>,
) -> Seq<char> {
    "HTTP/1.1 "@ + decimal(code as nat) + " "@ + status_reason(code) + "\r\n"@ + header_lines(e) + (
    if has_content_length(e) {
        Seq::empty()
    } else {
        "Content-Length: "@ + decimal(body_len) + "\r\n"@
    }) + cookie_lines(cookies) + "\r\n"@
}

fn append_str(out: &mut Vec<char>, s: &str)
    ensures
        final(out)@ == old(out)@ + s@,
{
    let v = chars_of(s);
    push_all(out, v.as_slice());
}

impl Response {
    /// The wire format of this response.
    pub open spec fn wire(&self) -> Seq<u8> {
        encode_utf8(
            head_text(
                self.status_code,
                self.headers.entries(),
                self.body@.len(),
                string_views(self.set_cookies@),
            ),
        ) + self.body@
    }

    /// A new response: 200 OK, no headers, no cookies, empty body.
    pub fn new() -> (r: Self)
        ensures
            r.status_code == 200,
            r.headers@ == Map::<Seq<char>, Seq<char>>::empty(),
            r.headers.entries().len() == 0,
            r.set_cookies@.len() == 0,
            r.body@.len() == 0,
            !r.sent,
            !r.is_upgrade,
    {
        Response {
            status_code: 200,
            headers: StrMap::new(),
            set_cookies: Vec::new(),
            body: Vec::new(),
            sent: false,
            is_upgrade: false,
        }
    }

    /// Sets the status code. Returns the response for chaining.
    pub fn status(&mut self, code: u16) -> (r: &mut Self)
        ensures
            *r == (Response { status_code: code, ..*old(self) }),
            *final(self) == *final(r),
    {
        self.status_code = code;
        self
    }

    /// Sets a header, replacing any value it had. Returns the response for
    /// chaining.
    pub fn header(&mut self, key: &str, value: &str) -> (r: &mut Self)
        ensures
            r.headers@ == old(self).headers@.insert(key@, value@),
            r.status_code == old(self).status_code,
            r.set_cookies == old(self).set_cookies,
            r.body == old(self).body,
            r.sent == old(self).sent,
            r.is_upgrade == old(self).is_upgrade,
            *final(self) == *final(r),
    {
        self.headers.insert(key.to_owned(), value.to_owned());
        self
    }

    /// Sends a plain text body; `content-type` defaults to
    /// `text/plain; charset=utf-8` when not already set.
    pub fn send(&mut self, body: &str)
        ensures
            final(self).headers@ == default_content_type(old(self).headers@, "text/plain; charset=utf-8"@),
            final(self).body@ == encode_utf8(body@),
            final(self).sent,
            final(self).status_code == old(self).status_code,
            final(self).set_cookies == old(self).set_cookies,
            final(self).is_upgrade == old(self).is_upgrade,
    {
        if !self.headers.contains_key("content-type") {
            self.headers.insert("content-type".to_owned(), "text/plain; charset=utf-8".to_owned());
        }
        self.body = utf8_bytes(body);
        self.sent = true;
    }

    /// Sends a body produced by JSON serialization: `content-type` becomes
    /// `application/json; charset=utf-8`; on a serialization error with
    /// message `m` the status becomes 500 and the body an error object.
    pub fn json_bytes(&mut self, serialized: Result<Vec<u8>, String>)
        ensures
            final(self).headers@ == old(self).headers@.insert("content-type"@, "application/json; charset=utf-8"@),
            final(self).sent,
            final(self).set_cookies == old(self).set_cookies,
            final(self).is_upgrade == old(self).is_upgrade,
            match serialized {
                Ok(b) => final(self).body@ == b@ && final(self).status_code == old(self).status_code,
                Err(m) => final(self).body@ == encode_utf8(json_error_body(m@)) && final(self).status_code == 500,
            },
    {
        self.headers.insert("content-type".to_owned(), "application/json; charset=utf-8".to_owned());
        match serialized {
            Ok(bytes) => {
                self.body = bytes;
            },
            Err(msg) => {
                self.status_code = 500;
                let mut out: Vec<char> = Vec::new();
                append_str(&mut out, "{\"error\":\"JSON serialization failed: ");
                append_str(&mut out, msg.as_str());
                append_str(&mut out, "\"}");
                assert(out@ =~= json_error_body(msg@));
                self.body = encode_chars(out.as_slice());
            },
        }
        self.sent = true;
    }

    /// Sends an HTML body; `content-type` becomes `text/html; charset=utf-8`.
    pub fn html(&mut self, body: &str)
        ensures
            final(self).headers@ == old(self).headers@.insert("content-type"@, "text/html; charset=utf-8"@),
            final(self).body@ == encode_utf8(body@),
            final(self).sent,
            final(self).status_code == old(self).status_code,
            final(self).set_cookies == old(self).set_cookies,
            final(self).is_upgrade == old(self).is_upgrade,
    {
        self.headers.insert("content-type".to_owned(), "text/html; charset=utf-8".to_owned());
        self.body = utf8_bytes(body);
        self.sent = true;
    }

    /// Sends the contents of the file at `path` (`None` when it could not be
    /// read): the content type is guessed from the extension; a missing file
    /// gives 404 with a plain text message.
    pub fn send_file_contents(&mut self, path: &str, contents: Option<Vec<u8>>)
        ensures
            final(self).sent,
            final(self).set_cookies == old(self).set_cookies,
            final(self).is_upgrade == old(self).is_upgrade,
            match contents {
                Some(c) => final(self).headers@ == old(self).headers@.insert("content-type"@, guessed_mime(path@))
                    && final(self).body@ == c@ && final(self).status_code == old(self).status_code,
                None => final(self).headers@ == old(self).headers@.insert("content-type"@, "text/plain"@)
                    && final(self).body@ == encode_utf8("File not found"@) && final(self).status_code == 404,
            },
    {
        match contents {
            Some(c) => {
                let mime = mime_for_path(path);
                self.headers.insert("content-type".to_owned(), mime);
                self.body = c;
            },
            None => {
                self.status_code = 404;
                self.headers.insert("content-type".to_owned(), "text/plain".to_owned());
                self.body = utf8_bytes("File not found");
            },
        }
        self.sent = true;
    }

    /// Redirects to `url`: the status becomes 302 unless one other than 200
    /// was set, `location` is set, and the body is emptied.
    pub fn redirect(&mut self, url: &str)
        ensures
            final(self).status_code == (if old(self).status_code == 200 { 302 } else { old(self).status_code }),
            final(self).headers@ == old(self).headers@.insert("location"@, url@),
            final(self).body@.len() == 0,
            final(self).sent,
            final(self).set_cookies == old(self).set_cookies,
            final(self).is_upgrade == old(self).is_upgrade,
    {
        if self.status_code == 200 {
            self.status_code = 302;
        }
        self.headers.insert("location".to_owned(), url.to_owned());
        self.body = Vec::new();
        self.sent = true;
    }

    /// Adds a `Set-Cookie` header for `cookie`.
    pub fn set_cookie(&mut self, cookie: CookieBuilder)
        ensures
            string_views(final(self).set_cookies@) == string_views(old(self).set_cookies@).push(cookie_text(cookie@)),
            final(self).status_code == old(self).status_code,
            final(self).headers == old(self).headers,
            final(self).body == old(self).body,
            final(self).sent == old(self).sent,
            final(self).is_upgrade == old(self).is_upgrade,
    {
        let c = cookie.build();
        self.set_cookies.push(c);
        assert(string_views(self.set_cookies@) =~= string_views(old(self).set_cookies@).push(cookie_text(cookie@)));
    }

    /// Removes a cookie by sending it with `Max-Age=0` and `Path=/`.
    pub fn remove_cookie(&mut self, name: &str)
        ensures
            string_views(final(self).set_cookies@) == string_views(old(self).set_cookies@).push(
                name@ + "="@ + "; Path=/"@ + "; Max-Age=0"@,
            ),
            final(self).status_code == old(self).status_code,
            final(self).headers == old(self).headers,
            final(self).body == old(self).body,
            final(self).sent == old(self).sent,
            final(self).is_upgrade == old(self).is_upgrade,
    {
        let c = CookieBuilder::removal(name);
        proof {
            crate::cookie::law_removal_cookie_text(name@, c@);
        }
        self.set_cookie(c);
    }

    /// Sends raw bytes; `content-type` defaults to
    /// `application/octet-stream` when not already set.
    pub fn send_bytes(&mut self, bytes: Vec<u8>)
        ensures
            final(self).headers@ == default_content_type(old(self).headers@, "application/octet-stream"@),
            final(self).body@ == bytes@,
            final(self).sent,
            final(self).status_code == old(self).status_code,
            final(self).set_cookies == old(self).set_cookies,
            final(self).is_upgrade == old(self).is_upgrade,
    {
        if !self.headers.contains_key("content-type") {
            self.headers.insert("content-type".to_owned(), "application/octet-stream".to_owned());
        }
        self.body = bytes;
        self.sent = true;
    }

    /// Sends an empty response with the given status code.
    pub fn send_status(&mut self, code: u16)
        ensures
            final(self).status_code == code,
            final(self).body@.len() == 0,
            final(self).sent,
            final(self).headers == old(self).headers,
            final(self).set_cookies == old(self).set_cookies,
            final(self).is_upgrade == old(self).is_upgrade,
    {
        self.status_code = code;
        self.body = Vec::new();
        self.sent = true;
    }

    /// The raw HTTP bytes to write: status line, headers, a
    /// `Content-Length` header unless one is set, the cookies, a blank line,
    /// and the body.
    pub fn to_bytes(&self) -> (b: Vec<u8>)
        ensures
            b@ == self.wire(),
    {
        let mut out: Vec<char> = Vec::new();
        append_str(&mut out, "HTTP/1.1 ");
        push_decimal(&mut out, self.status_code as u64);
        append_str(&mut out, " ");
        append_str(&mut out, status_text(self.status_code));
        append_str(&mut out, "\r\n");
        let ghost status_part = out@;
        let ghost e = self.headers.entries();
        let n = self.headers.len();
        let mut has_cl = false;
        let mut i: usize = 0;
        while i < n
            invariant
                i <= n == e.len(),
                e == self.headers.entries(),
                out@ == status_part + header_lines(e.subrange(0, i as int)),
                has_cl == exists|j: int| 0 <= j < i && lowercase(#[trigger] e[j].0) == "content-length"@,
            decreases n - i,
        {
            let (k, v) = self.headers.entry_at(i);
            let ghost before = out@;
            append_str(&mut out, k.as_str());
            append_str(&mut out, ": ");
            append_str(&mut out, v.as_str());
            append_str(&mut out, "\r\n");
            assert(e.subrange(0, i + 1).drop_last() =~= e.subrange(0, i as int));
            assert(out@ =~= before + header_line(e[i as int].0, e[i as int].1));
            let lk = to_lowercase(k.as_str());
            if str_eq(lk.as_str(), "content-length") {
                has_cl = true;
            }
            i = i + 1;
        }
        assert(e.subrange(0, n as int) =~= e);
        let ghost headers_part = out@;
        if !has_cl {
            append_str(&mut out, "Content-Length: ");
            push_decimal(&mut out, self.body.len() as u64);
            append_str(&mut out, "\r\n");
        }
        let ghost cl_part = out@;
        let ghost c = string_views(self.set_cookies@);
        let mut j: usize = 0;
        while j < self.set_cookies.len()
            invariant
                j <= self.set_cookies@.len(),
                c == string_views(self.set_cookies@),
                out@ == cl_part + cookie_lines(c.subrange(0, j as int)),
            decreases self.set_cookies@.len() - j,
        {
            let ghost before = out@;
            append_str(&mut out, "Set-Cookie: ");
            append_str(&mut out, self.set_cookies[j].as_str());
            append_str(&mut out, "\r\n");
            assert(c.subrange(0, j + 1).drop_last() =~= c.subrange(0, j as int));
            assert(out@ =~= before + "Set-Cookie: "@ + c[j as int] + "\r\n"@);
            j = j + 1;
        }
        assert(c.subrange(0, self.set_cookies@.len() as int) =~= c);
        append_str(&mut out, "\r\n");
        assert(out@ =~= head_text(self.status_code, e, self.body@.len(), c));
        let mut bytes = encode_chars(out.as_slice());
        let body_copy = copy_range(self.body.as_slice(), 0, self.body.len());
        assert(self.body@.subrange(0, self.body@.len() as int) =~= self.body@);
        push_all(&mut bytes, body_copy.as_slice());
        bytes
    }
}

} // verus!

verus! {

impl Default for Response {
    fn default() -> (r: Self)
        ensures
            r.status_code == 200,
            r.headers@ == Map::<Seq<char>, Seq<char>>::empty(),
            r.set_cookies@.len() == 0,
            r.body@.len() == 0,
            !r.sent,
            !r.is_upgrade,
    {
        Response::new()
    }
}

} // verus!
