//! Built-in middleware: CORS, rate limiting, static files, compression,
//! logging configuration and the default error handler.
//!
//! Each middleware decides what happens to a request and response. The
//! `before` decisions return `true` to continue to the route handler and
//! `false` to answer at once.

use vstd::prelude::*;

use crate::decimal::{decimal, push_decimal};
use crate::error::{error_status, Error};
use crate::request::{method_name, Method, PeerAddr, Request};
use crate::response::{guessed_mime, mime_for_path, Response};
use crate::strmap::KeyMap;
use crate::text::{
    chars_of, contains_seq, copy_range, find_from, has_prefix, occurs_at, push_all, starts_with,
    str_eq, string_of,
};
use vstd::utf8::encode_utf8;
use std::io::Write;

verus! {

/// The decimal text of `n`.
pub fn u64_string(n: u64) -> (s: String)
    ensures
        s@ == decimal(n as nat),
{
    let mut v: Vec<char> = Vec::new();
    push_decimal(&mut v, n);
    assert(v@ =~= decimal(n as nat));
    string_of(v.as_slice())
}

fn concat_all(parts: &[&str]) -> (s: String)
    ensures
        s@ == crate::middleware::joined(parts@.map_values(|p: &str| p@)),
{
    let mut v: Vec<char> = Vec::new();
    let mut i: usize = 0;
    while i < parts.len()
        invariant
            i <= parts@.len(),
            v@ == joined(parts@.map_values(|p: &str| p@).subrange(0, i as int)),
        decreases parts@.len() - i,
    {
        let c = chars_of(parts[i]);
        push_all(&mut v, c.as_slice());
        assert(parts@.map_values(|p: &str| p@).subrange(0, i + 1).drop_last() =~= parts@.map_values(
            |p: &str| p@,
        ).subrange(0, i as int));
        i = i + 1;
    }
    assert(parts@.map_values(|p: &str| p@).subrange(0, parts@.len() as int) =~= parts@.map_values(
        |p: &str| p@,
    ));
    string_of(v.as_slice())
}

/// The concatenation of a list of texts.
pub open spec fn joined(parts: Seq<Seq<char>>) -> Seq<char>
    decreases parts.len(),
{
    if parts.len() == 0 {
        Seq::empty()
    } else {
        joined(parts.drop_last()) + parts.last()
    }
}

fn contains_chars(hay: &[char], needle: &[char]) -> (b: bool)
    ensures
        b == contains_seq(hay@, needle@),
{
    match find_from(hay, needle, 0) {
        Some(_) => true,
        None => {
            assert forall|j: int| !occurs_at(hay@, needle@, j) by {
                if j < 0 {
                }
            }
            false
        },
    }
}

fn str_contains(hay: &str, needle: &str) -> (b: bool)
    ensures
        b == contains_seq(hay@, needle@),
{
    let h = chars_of(hay);
    let n = chars_of(needle);
    contains_chars(h.as_slice(), n.as_slice())
}

// ---------------------------------------------------------------------
// CORS
// ---------------------------------------------------------------------

/// The settings of a CORS middleware.
pub struct CorsView {
    pub allow_origin: Seq<char>,
    pub allow_methods: Seq<char>,
    pub allow_headers: Seq<char>,
    pub allow_credentials: bool,
    pub expose_headers: Seq<char>,
    pub max_age: Option<u64>,
}

/// CORS middleware: adds the CORS headers to every response and answers
/// preflight `OPTIONS` requests with 204 at once.
pub struct Cors {
    allow_origin: String,
    allow_methods: String,
    allow_headers: String,
    allow_credentials: bool,
    expose_headers: String,
    max_age: Option<u64>,
}

impl View for Cors {
    type V = CorsView;

    closed spec fn view(&self) -> CorsView {
        CorsView {
            allow_origin: self.allow_origin@,
            allow_methods: self.allow_methods@,
            allow_headers: self.allow_headers@,
            allow_credentials: self.allow_credentials,
            expose_headers: self.expose_headers@,
            max_age: self.max_age,
        }
    }
}

/// The `Access-Control-Allow-Origin` value: `*` when configured so, the
/// configured origin when one is set; with none configured no origin is
/// granted (the header is not added), whatever the request's `Origin` says.
pub open spec fn cors_origin(c: CorsView) -> Option<Seq<char>> {
    if c.allow_origin.len() > 0 {
        Some(c.allow_origin)
    } else {
        None
    }
}

/// The headers after CORS processing.
pub open spec fn cors_headers(c: CorsView, origin: Option<Seq<char>>, h: Map<Seq<char>, Seq<char>>) -> Map<
    Seq<char>,
    Seq<char>,
> {
    let h0 = match origin {
        Some(o) => h.insert("Access-Control-Allow-Origin"@, o),
        None => h,
    };
    let h1 = h0.insert("Access-Control-Allow-Methods"@, c.allow_methods).insert(
        "Access-Control-Allow-Headers"@,
        c.allow_headers,
    );
    let h2 = if c.allow_credentials {
        h1.insert("Access-Control-Allow-Credentials"@, "true"@)
    } else {
        h1
    };
    let h3 = if c.expose_headers.len() > 0 {
        h2.insert("Access-Control-Expose-Headers"@, c.expose_headers)
    } else {
        h2
    };
    match c.max_age {
        Some(m) => h3.insert("Access-Control-Max-Age"@, decimal(m as nat)),
        None => h3,
    }
}

/// What the CORS middleware does to a response: the CORS headers are
/// added; a preflight `OPTIONS` request is answered with 204 and an empty
/// body (and the chain stops), any other request goes on unchanged.
pub open spec fn cors_applied(c: CorsView, req: Request, before: Response, after: Response, cont: bool) -> bool {
    &&& after.headers@ == cors_headers(c, cors_origin(c), before.headers@)
    &&& after.set_cookies == before.set_cookies
    &&& cont == (req.method != Method::OPTIONS)
    &&& cont ==> after.status_code == before.status_code && after.body == before.body && after.sent == before.sent
    &&& !cont ==> after.status_code == 204 && after.body@.len() == 0 && after.sent
}

impl Cors {
    /// Restrictive defaults: no origin is granted until one is configured;
    /// `GET, HEAD, OPTIONS`, `Content-Type`.
    pub fn new() -> (c: Self)
        ensures
            c@ == (CorsView {
                allow_origin: ""@,
                allow_methods: "GET, HEAD, OPTIONS"@,
                allow_headers: "Content-Type"@,
                allow_credentials: false,
                expose_headers: ""@,
                max_age: None,
            }),
    {
        Cors {
            allow_origin: "".to_owned(),
            allow_methods: "GET, HEAD, OPTIONS".to_owned(),
            allow_headers: "Content-Type".to_owned(),
            allow_credentials: false,
            expose_headers: "".to_owned(),
            max_age: None,
        }
    }

    /// Allows all origins and the common methods and headers, caching
    /// preflights for a day.
    pub fn permissive() -> (c: Self)
        ensures
            c@ == (CorsView {
                allow_origin: "*"@,
                allow_methods: "GET, POST, PUT, DELETE, PATCH, HEAD, OPTIONS"@,
                allow_headers: "Content-Type, Authorization, Accept, Origin, X-Requested-With"@,
                allow_credentials: false,
                expose_headers: ""@,
                max_age: Some(86400),
            }),
    {
        Cors {
            allow_origin: "*".to_owned(),
            allow_methods: "GET, POST, PUT, DELETE, PATCH, HEAD, OPTIONS".to_owned(),
            allow_headers: "Content-Type, Authorization, Accept, Origin, X-Requested-With".to_owned(),
            allow_credentials: false,
            expose_headers: "".to_owned(),
            max_age: Some(86400),
        }
    }

    /// Sets the allowed origin (`*` for all).
    pub fn allow_origin(self, origin: &str) -> (c: Self)
        ensures
            c@ == (CorsView { allow_origin: origin@, ..self@ }),
    {
        Cors { allow_origin: origin.to_owned(), ..self }
    }

    /// Sets the allowed methods.
    pub fn allow_methods(self, methods: &str) -> (c: Self)
        ensures
            c@ == (CorsView { allow_methods: methods@, ..self@ }),
    {
        Cors { allow_methods: methods.to_owned(), ..self }
    }

    /// Sets the allowed request headers.
    pub fn allow_headers(self, headers: &str) -> (c: Self)
        ensures
            c@ == (CorsView { allow_headers: headers@, ..self@ }),
    {
        Cors { allow_headers: headers.to_owned(), ..self }
    }

    /// Enables or disables credentials.
    pub fn allow_credentials(self, allow: bool) -> (c: Self)
        ensures
            c@ == (CorsView { allow_credentials: allow, ..self@ }),
    {
        Cors { allow_credentials: allow, ..self }
    }

    /// Sets the headers the browser may read.
    pub fn expose_headers(self, headers: &str) -> (c: Self)
        ensures
            c@ == (CorsView { expose_headers: headers@, ..self@ }),
    {
        Cors { expose_headers: headers.to_owned(), ..self }
    }

    /// Sets the preflight cache duration in seconds.
    pub fn max_age(self, seconds: u64) -> (c: Self)
        ensures
            c@ == (CorsView { max_age: Some(seconds), ..self@ }),
    {
        Cors { max_age: Some(seconds), ..self }
    }

    /// Adds the CORS headers; a preflight `OPTIONS` request is answered with
    /// 204 and an empty body at once (returns `false`).
    pub fn before(&self, req: &Request, res: &mut Response) -> (cont: bool)
        ensures
            cors_applied(self@, *req, *old(res), *final(res), cont),
    {
        if !self.allow_origin.as_str().is_empty() {
            res.header("Access-Control-Allow-Origin", self.allow_origin.as_str());
        }
        res.header("Access-Control-Allow-Methods", self.allow_methods.as_str());
        res.header("Access-Control-Allow-Headers", self.allow_headers.as_str());
        if self.allow_credentials {
            res.header("Access-Control-Allow-Credentials", "true");
        }
        let expose_nonempty = !self.expose_headers.as_str().is_empty();
        if expose_nonempty {
            res.header("Access-Control-Expose-Headers", self.expose_headers.as_str());
        }
        match self.max_age {
            Some(m) => {
                let t = u64_string(m);
                res.header("Access-Control-Max-Age", t.as_str());
            },
            None => {},
        }
        if req.method == Method::OPTIONS {
            res.status(204).send_status(204);
            return false;
        }
        true
    }
}

// ---------------------------------------------------------------------
// Logger configuration
// ---------------------------------------------------------------------

/// The `chrono` timestamp pattern of each log format.
pub open spec fn timestamp_pattern_of(f: LogFormat) -> Seq<char> {
    match f {
        LogFormat::Standard => "%Y-%m-%d %H:%M:%S"@,
        LogFormat::Minimal => ""@,
        LogFormat::Combined => "%d/%b/%Y:%H:%M:%S %z"@,
    }
}

/// A socket address as text: `ip:port`, with an IPv6 address in brackets.
pub open spec fn peer_text_of(a: Option<PeerAddr>) -> Seq<char> {
    match a {
        Some(p) => if p.ip@.contains(':') {
            "["@ + p.ip@ + "]:"@ + decimal(p.port as nat)
        } else {
            p.ip@ + ":"@ + decimal(p.port as nat)
        },
        None => "-"@,
    }
}

/// The value of a header, or `-` when absent.
pub open spec fn header_or_dash(req: Request, name: Seq<char>) -> Seq<char> {
    match req.header_value(name) {
        Some(v) => v,
        None => "-"@,
    }
}

/// The log line of a request in a format.
pub open spec fn log_line(
    f: LogFormat,
    req: Request,
    status: u16,
    body_len: nat,
    timestamp: Seq<char>,
    duration_ms: Seq<char>,
) -> Seq<char> {
    match f {
        LogFormat::Standard => joined(
            seq![
                "["@,
                timestamp,
                "] "@,
                method_name(req.method),
                " "@,
                req.uri@,
                " -> "@,
                decimal(status as nat),
                " ("@,
                duration_ms,
                "ms)"@,
            ],
        ),
        LogFormat::Minimal => joined(
            seq![
                method_name(req.method),
                " "@,
                req.uri@,
                " "@,
                decimal(status as nat),
                " "@,
                duration_ms,
                "ms"@,
            ],
        ),
        LogFormat::Combined => joined(
            seq![
                peer_text_of(req.remote_addr),
                " - - ["@,
                timestamp,
                "] \""@,
                method_name(req.method),
                " "@,
                req.uri@,
                " "@,
                req.http_version@,
                "\" "@,
                decimal(status as nat),
                " "@,
                decimal(body_len),
                " \""@,
                header_or_dash(req, "referer"@),
                "\" \""@,
                header_or_dash(req, "user-agent"@),
                "\" "@,
                duration_ms,
                "ms"@,
            ],
        ),
    }
}

/// A peer address as text (see [`peer_text_of`]).
fn peer_text(a: &Option<PeerAddr>) -> (s: String)
    ensures
        s@ == peer_text_of(*a),
{
    match a {
        Some(p) => {
            let ip = chars_of(p.ip.as_str());
            let mut colon = false;
            let mut i: usize = 0;
            while i < ip.len()
                invariant
                    i <= ip@.len(),
                    colon == exists|j: int| 0 <= j < i && ip@[j] == ':',
                decreases ip@.len() - i,
            {
                if ip[i] == ':' {
                    colon = true;
                }
                i = i + 1;
            }
            let port = u64_string(p.port as u64);
            if colon {
                let parts = ["[", p.ip.as_str(), "]:", port.as_str()];
                let r = concat_all(&parts);
                assert(parts@.map_values(|x: &str| x@) =~= seq!["["@, p.ip@, "]:"@, decimal(p.port as nat)]);
                assert(joined(seq!["["@, p.ip@, "]:"@, decimal(p.port as nat)]) =~= "["@ + p.ip@ + "]:"@ + decimal(p.port as nat)) by {
                    reveal_with_fuel(joined, 5);
                }
                r
            } else {
                let parts = [p.ip.as_str(), ":", port.as_str()];
                let r = concat_all(&parts);
                assert(parts@.map_values(|x: &str| x@) =~= seq![p.ip@, ":"@, decimal(p.port as nat)]);
                assert(joined(seq![p.ip@, ":"@, decimal(p.port as nat)]) =~= p.ip@ + ":"@ + decimal(p.port as nat)) by {
                    reveal_with_fuel(joined, 4);
                }
                r
            }
        },
        None => "-".to_owned(),
    }
}

/// Request log line formats.
#[derive(Debug, Clone, Copy, PartialEq, Eq)]
pub enum LogFormat {
    /// `[2025-01-15 10:30:00] GET /path -> 200 (5ms)`
    Standard,
    /// `GET /path 200 5ms`
    Minimal,
    /// Apache-like, with remote address and user agent.
    Combined,
}

/// Request logging middleware settings (the log lines are written by the
/// server, which owns the clock and standard error).
pub struct Logger {
    format: LogFormat,
}

impl Logger {
    /// A logger with the standard format.
    pub fn new() -> (l: Self)
        ensures
            l.log_format() == LogFormat::Standard,
    {
        Logger { format: LogFormat::Standard }
    }

    /// A logger with the given format.
    pub fn with_format(format: LogFormat) -> (l: Self)
        ensures
            l.log_format() == format,
    {
        Logger { format }
    }

    pub closed spec fn log_format(&self) -> LogFormat {
        self.format
    }

    /// The configured format.
    pub fn format(&self) -> (f: LogFormat)
        ensures
            f == self.log_format(),
    {
        self.format
    }

    /// The `chrono` pattern of the timestamp the format shows (empty for
    /// the minimal format, which shows none).
    pub fn timestamp_pattern(&self) -> (p: &'static str)
        ensures
            p@ == timestamp_pattern_of(self.log_format()),
    {
        match self.format {
            LogFormat::Standard => "%Y-%m-%d %H:%M:%S",
            LogFormat::Minimal => "",
            LogFormat::Combined => "%d/%b/%Y:%H:%M:%S %z",
        }
    }

    /// The log line for a finished request, given the timestamp (in the
    /// format's pattern) and the duration in milliseconds as text.
    pub fn line(&self, req: &Request, res: &Response, timestamp: &str, duration_ms: &str) -> (l: String)
        ensures
            l@ == log_line(self.log_format(), *req, res.status_code, res.body@.len(), timestamp@, duration_ms@),
    {
        let method = req.method.as_str();
        let status = u64_string(res.status_code as u64);
        match self.format {
            LogFormat::Standard => {
                let parts = [
                    "[",
                    timestamp,
                    "] ",
                    method,
                    " ",
                    req.uri.as_str(),
                    " -> ",
                    status.as_str(),
                    " (",
                    duration_ms,
                    "ms)",
                ];
                let r = concat_all(&parts);
                assert(parts@.map_values(|p: &str| p@) =~= seq![
                    "["@,
                    timestamp@,
                    "] "@,
                    method_name(req.method),
                    " "@,
                    req.uri@,
                    " -> "@,
                    decimal(res.status_code as nat),
                    " ("@,
                    duration_ms@,
                    "ms)"@,
                ]);
                r
            },
            LogFormat::Minimal => {
                let parts = [method, " ", req.uri.as_str(), " ", status.as_str(), " ", duration_ms, "ms"];
                let r = concat_all(&parts);
                assert(parts@.map_values(|p: &str| p@) =~= seq![
                    method_name(req.method),
                    " "@,
                    req.uri@,
                    " "@,
                    decimal(res.status_code as nat),
                    " "@,
                    duration_ms@,
                    "ms"@,
                ]);
                r
            },
            LogFormat::Combined => {
                let remote = peer_text(&req.remote_addr);
                let ua = match req.header("user-agent") {
                    Some(v) => v,
                    None => "-",
                };
                let referer = match req.header("referer") {
                    Some(v) => v,
                    None => "-",
                };
                let size = u64_string(res.body.len() as u64);
                let parts = [
                    remote.as_str(),
                    " - - [",
                    timestamp,
                    "] \"",
                    method,
                    " ",
                    req.uri.as_str(),
                    " ",
                    req.http_version.as_str(),
                    "\" ",
                    status.as_str(),
                    " ",
                    size.as_str(),
                    " \"",
                    referer,
                    "\" \"",
                    ua,
                    "\" ",
                    duration_ms,
                    "ms",
                ];
                let r = concat_all(&parts);
                assert(parts@.map_values(|p: &str| p@) =~= seq![
                    peer_text_of(req.remote_addr),
                    " - - ["@,
                    timestamp@,
                    "] \""@,
                    method_name(req.method),
                    " "@,
                    req.uri@,
                    " "@,
                    req.http_version@,
                    "\" "@,
                    decimal(res.status_code as nat),
                    " "@,
                    decimal(res.body@.len()),
                    " \""@,
                    header_or_dash(*req, "referer"@),
                    "\" \""@,
                    header_or_dash(*req, "user-agent"@),
                    "\" "@,
                    duration_ms@,
                    "ms"@,
                ]);
                r
            },
        }
    }
}

} // verus!

verus! {

// ---------------------------------------------------------------------
// Rate limiting
// ---------------------------------------------------------------------

/// The lowercase hex digit of a value below 16.
pub open spec fn hex_char(n: u32) -> char {
    if n < 10 {
        (48 + n) as char
    } else {
        (87 + n) as char
    }
}

/// How a JSON string literal writes one character: `"` and `\` behind a
/// backslash; backspace, form feed, newline, carriage return and tab by
/// their short escapes; other control characters below U+0020 as
/// `\u00` and two lowercase hex digits; everything else as it is.
pub open spec fn json_char(c: char) -> Seq<char> {
    if c == '"' {
        seq!['\\', '"']
    } else if c == '\\' {
        seq!['\\', '\\']
    } else if c == '\u{8}' {
        seq!['\\', 'b']
    } else if c == '\u{c}' {
        seq!['\\', 'f']
    } else if c == '\n' {
        seq!['\\', 'n']
    } else if c == '\r' {
        seq!['\\', 'r']
    } else if c == '\t' {
        seq!['\\', 't']
    } else if (c as u32) < 0x20 {
        seq!['\\', 'u', '0', '0', hex_char((c as u32) / 16), hex_char((c as u32) % 16)]
    } else {
        seq![c]
    }
}

/// The characters of a string, each written as [`json_char`] writes it.
pub open spec fn json_escaped(s: Seq<char>) -> Seq<char>
    decreases s.len(),
{
    if s.len() == 0 {
        Seq::empty()
    } else {
        json_escaped(s.drop_last()) + json_char(s.last())
    }
}

/// What `serde_json::to_string` makes of a string: the escaped characters
/// between double quotes.
pub open spec fn json_quoted(s: Seq<char>) -> Seq<char> {
    seq!['"'] + json_escaped(s) + seq!['"']
}

/// `serde_json::to_string(s)`: `s` as a JSON string literal.
#[verifier::external_body]
pub(crate) fn json_quote(s: &str) -> (r: String)
    ensures
        r@ == json_quoted(s@),
{
    serde_json::to_string(s).unwrap_or_default()
}

/// A fixed-window request counter: requests in the window so far and the
/// time (ms) the window started.
pub struct WindowCounter {
    pub count: u64,
    pub window_start: u64,
}

/// Rate limiting middleware: a fixed-window counter per client.
pub struct RateLimiter {
    max_requests: u64,
    window_ms: u64,
    counters: KeyMap<WindowCounter>,
}

/// The identity of a client: its IP address, else its
/// `X-Forwarded-For` header, else `unknown`.
pub open spec fn client_key_of(req: Request) -> Seq<char> {
    match req.remote_addr {
        Some(a) => a.ip@,
        None => match req.header_value("x-forwarded-for"@) {
            Some(f) => f,
            None => "unknown"@,
        },
    }
}

/// The counter after a request at `now`: a fresh or expired window starts
/// over at `now`; the request is counted.
pub open spec fn counter_after(prev: Option<WindowCounter>, now: u64, window_ms: u64) -> WindowCounter {
    let base = match prev {
        Some(c) => if now >= c.window_start && now - c.window_start >= window_ms {
            WindowCounter { count: 0, window_start: now }
        } else {
            c
        },
        None => WindowCounter { count: 0, window_start: now },
    };
    WindowCounter {
        count: if base.count < u64::MAX {
            (base.count + 1) as u64
        } else {
            u64::MAX
        },
        window_start: base.window_start,
    }
}

/// Whole seconds from `now` until the window of `c` resets (0 if past).
pub open spec fn reset_secs(c: WindowCounter, now: u64, window_ms: u64) -> nat {
    let reset = c.window_start + window_ms;
    if reset > now {
        ((reset - now) / 1000) as nat
    } else {
        0
    }
}

/// The body of a refused request.
pub open spec fn too_many_body(retry_after: nat) -> Seq<char> {
    "{\"error\":{\"code\":429,\"message\":\"Too Many Requests\",\"retry_after\":"@ + decimal(retry_after)
        + "}}"@
}

/// The headers a rate-limited response carries.
pub open spec fn rate_headers(
    h: Map<Seq<char>, Seq<char>>,
    max: u64,
    c: WindowCounter,
    reset: nat,
) -> Map<Seq<char>, Seq<char>> {
    let remaining: nat = if max >= c.count {
        (max - c.count) as nat
    } else {
        0
    };
    let h1 = h.insert("X-RateLimit-Limit"@, decimal(max as nat)).insert(
        "X-RateLimit-Remaining"@,
        decimal(remaining),
    ).insert("X-RateLimit-Reset"@, decimal(reset));
    if c.count > max {
        h1.insert("Retry-After"@, decimal(reset)).insert(
            "content-type"@,
            "application/json; charset=utf-8"@,
        )
    } else {
        h1
    }
}

impl RateLimiter {
    pub closed spec fn max(&self) -> u64 {
        self.max_requests
    }

    pub closed spec fn window(&self) -> u64 {
        self.window_ms
    }

    /// The counters, by client.
    pub closed spec fn counts(&self) -> Map<Seq<char>, WindowCounter> {
        self.counters@
    }

    /// A rate limiter allowing `max_requests` per window of `window_ms`
    /// milliseconds.
    pub fn with_window_ms(max_requests: u64, window_ms: u64) -> (r: Self)
        ensures
            r.max() == max_requests,
            r.window() == window_ms,
            r.counts() == Map::<Seq<char>, WindowCounter>::empty(),
    {
        RateLimiter { max_requests, window_ms, counters: KeyMap::new() }
    }

    /// A rate limiter allowing `max_requests` per `window_duration`
    /// (whole milliseconds).
    pub fn new(max_requests: u64, window_duration: std::time::Duration) -> (r: Self)
        ensures
            r.max() == max_requests,
            r.window() == capped_millis(window_duration),
            r.counts() == Map::<Seq<char>, WindowCounter>::empty(),
    {
        let ms = duration_millis(&window_duration);
        Self::with_window_ms(max_requests, ms)
    }

    /// `max` requests per second.
    pub fn per_second(max: u64) -> (r: Self)
        ensures
            r.max() == max,
            r.window() == 1000,
            r.counts() == Map::<Seq<char>, WindowCounter>::empty(),
    {
        Self::with_window_ms(max, 1000)
    }

    /// `max` requests per minute.
    pub fn per_minute(max: u64) -> (r: Self)
        ensures
            r.max() == max,
            r.window() == 60000,
            r.counts() == Map::<Seq<char>, WindowCounter>::empty(),
    {
        Self::with_window_ms(max, 60000)
    }

    /// `max` requests per hour.
    pub fn per_hour(max: u64) -> (r: Self)
        ensures
            r.max() == max,
            r.window() == 3600000,
            r.counts() == Map::<Seq<char>, WindowCounter>::empty(),
    {
        Self::with_window_ms(max, 3600000)
    }

    /// The client identity of a request.
    pub fn client_key(req: &Request) -> (k: String)
        ensures
            k@ == client_key_of(*req),
    {
        match &req.remote_addr {
            Some(a) => a.ip.clone(),
            None => match req.header("x-forwarded-for") {
                Some(f) => f.to_owned(),
                None => "unknown".to_owned(),
            },
        }
    }

    /// Drops the counters whose window has passed at `now` (ms).
    pub fn cleanup(&mut self, now: u64)
        ensures
            final(self).max() == old(self).max(),
            final(self).window() == old(self).window(),
            forall|k: Seq<char>| #[trigger] final(self).counts().contains_key(k) <==> (old(
                self,
            ).counts().contains_key(k) && !(now >= old(self).counts()[k].window_start && now
                - old(self).counts()[k].window_start >= old(self).window())),
            forall|k: Seq<char>| #[trigger] final(self).counts().contains_key(k) ==> final(self).counts()[k]
                == old(self).counts()[k],
    {
        let n = self.counters.len();
        let mut keep: Vec<bool> = Vec::new();
        let mut i: usize = 0;
        while i < n
            invariant
                n == self.counters.entries().len(),
                i <= n,
                keep@.len() == i,
                forall|j: int| 0 <= j < i ==> keep@[j] == !(now >= #[trigger] self.counters.entries()[j].1.window_start && now - self.counters.entries()[j].1.window_start >= self.window_ms),
            decreases n - i,
        {
            let (_, c) = self.counters.entry_at(i);
            keep.push(!(now >= c.window_start && now - c.window_start >= self.window_ms));
            i = i + 1;
        }
        let ghost old_e = self.counters.entries();
        self.counters.keys_distinct();
        self.counters.retain_where(&keep);
        proof {
            assert forall|k: Seq<char>| #[trigger] self.counts().contains_key(k) <==> (old(self).counts().contains_key(k)
                && !(now >= old(self).counts()[k].window_start && now - old(self).counts()[k].window_start >= old(self).window())) by {
                if self.counts().contains_key(k) {
                    crate::strmap::lemma_kept_map_keys(old_e, keep@, n as int, k);
                    let t = choose|t: int| 0 <= t < n && old_e[t].0 == k;
                    crate::strmap::lemma_kept_map(old_e, keep@, n as int, t);
                    crate::strmap::lemma_key_map_at(old_e, t);
                }
                if old(self).counts().contains_key(k) {
                    let t = choose|t: int| 0 <= t < old_e.len() && old_e[t].0 == k;
                    crate::strmap::lemma_kept_map(old_e, keep@, n as int, t);
                    crate::strmap::lemma_key_map_at(old_e, t);
                }
            }
            assert forall|k: Seq<char>| #[trigger] self.counts().contains_key(k) implies self.counts()[k] == old(self).counts()[k] by {
                crate::strmap::lemma_kept_map_keys(old_e, keep@, n as int, k);
                let t = choose|t: int| 0 <= t < n && old_e[t].0 == k;
                crate::strmap::lemma_kept_map(old_e, keep@, n as int, t);
                crate::strmap::lemma_key_map_at(old_e, t);
            }
        }
    }

    /// Counts a request made at `now` (ms) and sets the rate limit headers.
    /// A request over the limit is answered at once with 429 and a JSON
    /// error (returns `false`).
    pub fn before(&mut self, req: &Request, res: &mut Response, now: u64) -> (cont: bool)
        ensures
            ({
                let key = client_key_of(*req);
                let prev = if old(self).counts().contains_key(key) {
                    Some(old(self).counts()[key])
                } else {
                    None
                };
                let c = counter_after(prev, now, old(self).window());
                let reset = reset_secs(c, now, old(self).window());
                &&& final(self).counts() == old(self).counts().insert(key, c)
                &&& final(self).max() == old(self).max()
                &&& final(self).window() == old(self).window()
                &&& cont == (c.count <= old(self).max())
                &&& final(res).headers@ == rate_headers(old(res).headers@, old(self).max(), c, reset)
                &&& final(res).set_cookies == old(res).set_cookies
                &&& cont ==> final(res).status_code == old(res).status_code && final(res).body
                    == old(res).body
                &&& !cont ==> final(res).status_code == 429 && final(res).body@ == encode_utf8(
                    too_many_body(reset),
                ) && final(res).sent
            }),
    {
        let key = Self::client_key(req);
        let prev: Option<WindowCounter> = match self.counters.get(key.as_str()) {
            Some(c) => Some(WindowCounter { count: c.count, window_start: c.window_start }),
            None => None,
        };
        let base = match prev {
            Some(c) => if now >= c.window_start && now - c.window_start >= self.window_ms {
                WindowCounter { count: 0, window_start: now }
            } else {
                c
            },
            None => WindowCounter { count: 0, window_start: now },
        };
        let c = WindowCounter {
            count: if base.count < u64::MAX {
                base.count + 1
            } else {
                u64::MAX
            },
            window_start: base.window_start,
        };
        let count = c.count;
        let start = c.window_start;
        self.counters.insert(key, c);
        let remaining: u64 = if self.max_requests >= count {
            self.max_requests - count
        } else {
            0
        };
        let reset: u64 = if start as u128 + self.window_ms as u128 > now as u128 {
            ((start as u128 + self.window_ms as u128 - now as u128) / 1000) as u64
        } else {
            0
        };
        let limit_text = u64_string(self.max_requests);
        res.header("X-RateLimit-Limit", limit_text.as_str());
        let remaining_text = u64_string(remaining);
        res.header("X-RateLimit-Remaining", remaining_text.as_str());
        let reset_text = u64_string(reset);
        res.header("X-RateLimit-Reset", reset_text.as_str());
        if count > self.max_requests {
            res.header("Retry-After", reset_text.as_str());
            let mut body: Vec<char> = chars_of(
                "{\"error\":{\"code\":429,\"message\":\"Too Many Requests\",\"retry_after\":",
            );
            push_decimal(&mut body, reset);
            let tail = chars_of("}}");
            push_all(&mut body, tail.as_slice());
            assert(body@ =~= too_many_body(reset as nat));
            res.status(429).json_bytes(Ok(crate::text::encode_chars(body.as_slice())));
            return false;
        }
        true
    }
}

/// The whole seconds of a duration (`Duration::as_secs`).
pub uninterp spec fn secs_of(d: std::time::Duration) -> u64;

/// The nanoseconds of a duration beyond its whole seconds
/// (`Duration::subsec_nanos`).
pub uninterp spec fn subsec_nanos_of(d: std::time::Duration) -> u32;

/// The whole milliseconds of a duration (what `Duration::as_millis`
/// computes from its seconds and nanoseconds) as a `u64`, `u64::MAX` when
/// they do not fit.
pub open spec fn capped_millis(d: std::time::Duration) -> u64 {
    let ms = secs_of(d) * 1000 + subsec_nanos_of(d) / 1_000_000;
    if ms <= u64::MAX {
        ms as u64
    } else {
        u64::MAX
    }
}

/// `Duration::as_secs`.
#[verifier::external_body]
fn duration_secs(d: &std::time::Duration) -> (r: u64)
    ensures
        r == secs_of(*d),
{
    d.as_secs()
}

/// `Duration::subsec_nanos`: always below one second.
#[verifier::external_body]
fn duration_subsec_nanos(d: &std::time::Duration) -> (r: u32)
    ensures
        r == subsec_nanos_of(*d),
        r < 1_000_000_000,
{
    d.subsec_nanos()
}

/// The whole milliseconds of a duration as a `u64` (`u64::MAX` when they
/// do not fit).
pub(crate) fn duration_millis(d: &std::time::Duration) -> (r: u64)
    ensures
        r == capped_millis(*d),
{
    let secs = duration_secs(d);
    let sub_ms = duration_subsec_nanos(d) / 1_000_000;
    if secs > (u64::MAX - sub_ms as u64) / 1000 {
        u64::MAX
    } else {
        secs * 1000 + sub_ms as u64
    }
}

} // verus!

verus! {

// ---------------------------------------------------------------------
// Static files
// ---------------------------------------------------------------------

/// The HTTP date (`%a, %d %b %Y %H:%M:%S GMT`, in UTC) chrono writes for
/// the instant `secs` seconds after the Unix epoch; `None` outside the
/// dates chrono can hold.
pub uninterp spec fn http_date_text(secs: int) -> Option<Seq<char>>;

/// `chrono::DateTime::<Utc>::from_timestamp(secs, 0)` formatted as an
/// HTTP date.
#[verifier::external_body]
fn http_date(secs: i64) -> (r: Option<String>)
    ensures
        match r {
            Some(t) => http_date_text(secs as int) == Some(t@),
            None => http_date_text(secs as int) is None,
        },
{
    let t = chrono::DateTime::<chrono::Utc>::from_timestamp(secs, 0)?;
    Some(t.format("%a, %d %b %Y %H:%M:%S GMT").to_string())
}

/// Static file serving: maps a URL prefix to a directory. The decisions
/// (which requests, which file path) are made here; reading the disk is the
/// server's part.
pub struct StaticFiles {
    url_prefix: String,
    root_dir: String,
    index_file: Option<String>,
    cache_control: Option<String>,
}

pub struct StaticFilesView {
    pub url_prefix: Seq<char>,
    pub root_dir: Seq<char>,
    pub index_file: Option<Seq<char>>,
    pub cache_control: Option<Seq<char>>,
}

impl View for StaticFiles {
    type V = StaticFilesView;

    closed spec fn view(&self) -> StaticFilesView {
        StaticFilesView {
            url_prefix: self.url_prefix@,
            root_dir: self.root_dir@,
            index_file: crate::request::opt_str(self.index_file),
            cache_control: crate::request::opt_str(self.cache_control),
        }
    }
}

/// `PathBuf::push` on Unix: an absolute `rel` replaces `base`; otherwise
/// `rel` is appended, with a `/` between unless `base` is empty or already
/// ends with one.
pub open spec fn path_push(base: Seq<char>, rel: Seq<char>) -> Seq<char> {
    if rel.len() > 0 && rel[0] == '/' {
        rel
    } else if base.len() > 0 && base.last() != '/' {
        base + "/"@ + rel
    } else {
        base + rel
    }
}

/// Whether a file path lies under a root directory, component by
/// component: the root itself, or the root followed by `/` (a root that
/// ends with `/` needs none added). `/srv/www2/a` is not under `/srv/www`.
pub open spec fn path_within(root: Seq<char>, file: Seq<char>) -> bool {
    ||| file == root
    ||| root.len() > 0 && root.last() == '/' && has_prefix(file, root)
    ||| has_prefix(file, root + "/"@)
}

/// Whether `file` lies under `root`, comparing whole path components; both
/// are taken as written (the caller resolves links and `..` first).
pub fn contained(root: &str, file: &str) -> (b: bool)
    ensures
        b == path_within(root@, file@),
{
    let r = chars_of(root);
    let f = chars_of(file);
    if crate::text::chars_eq(f.as_slice(), r.as_slice()) {
        return true;
    }
    if r.len() > 0 && r[r.len() - 1] == '/' {
        proof {
            if has_prefix(file@, root@ + "/"@) {
                assert(file@.subrange(0, root@.len() as int) =~= (root@ + "/"@).subrange(0, root@.len() as int));
                assert((root@ + "/"@).subrange(0, root@.len() as int) =~= root@);
            }
        }
        return starts_with(f.as_slice(), r.as_slice());
    }
    let mut rs = chars_of(root);
    rs.push('/');
    proof {
        reveal_strlit("/");
    }
    assert(rs@ =~= root@ + "/"@);
    starts_with(f.as_slice(), rs.as_slice())
}

/// The part of a URL path below the prefix, with `\` read as `/`; `None`
/// when the path is outside the prefix or contains `..`. A path is below
/// the prefix only where the prefix ends it or is followed by `/`:
/// `/static` serves `/static/*`, never `/staticfile`.
pub open spec fn relative_of(prefix: Seq<char>, url_path: Seq<char>) -> Option<Seq<char>> {
    let stripped = if url_path == prefix || url_path == prefix + "/"@ {
        Some(Seq::<char>::empty())
    } else if has_prefix(url_path, prefix + "/"@) {
        Some(url_path.subrange((prefix.len() + 1) as int, url_path.len() as int))
    } else {
        None
    };
    match stripped {
        Some(r) => {
            let fixed = r.map_values(|c: char| if c == '\\' { '/' } else { c });
            if contains_seq(fixed, ".."@) {
                None
            } else {
                Some(fixed)
            }
        },
        None => None,
    }
}

fn path_push_exec(base: &str, rel: &str) -> (r: String)
    ensures
        r@ == path_push(base@, rel@),
{
    let b = chars_of(base);
    let rv = chars_of(rel);
    if rv.len() > 0 && rv[0] == '/' {
        rel.to_owned()
    } else if b.len() > 0 && b[b.len() - 1] != '/' {
        let mut out = b;
        out.push('/');
        push_all(&mut out, rv.as_slice());
        proof {
            reveal_strlit("/");
        }
        assert(out@ =~= base@ + "/"@ + rel@);
        string_of(out.as_slice())
    } else {
        let mut out = b;
        push_all(&mut out, rv.as_slice());
        string_of(out.as_slice())
    }
}

impl StaticFiles {
    /// Serves files under `root_dir` at `url_prefix` (trailing `/`s of the
    /// prefix removed).
    pub fn new(url_prefix: &str, root_dir: &str) -> (s: Self)
        ensures
            s@ == (StaticFilesView {
                url_prefix: crate::text::trim_end_char(url_prefix@, '/'),
                root_dir: root_dir@,
                index_file: None,
                cache_control: None,
            }),
    {
        let p = chars_of(url_prefix);
        let mut j = p.len();
        assert(p@.subrange(0, j as int) =~= p@);
        while j > 0 && p[j - 1] == '/'
            invariant
                j <= p@.len(),
                crate::text::trim_end_char(p@, '/') == crate::text::trim_end_char(p@.subrange(0, j as int), '/'),
            decreases j,
        {
            assert(p@.subrange(0, j as int).drop_last() =~= p@.subrange(0, j - 1));
            j = j - 1;
        }
        let trimmed = copy_range(p.as_slice(), 0, j);
        StaticFiles {
            url_prefix: string_of(trimmed.as_slice()),
            root_dir: root_dir.to_owned(),
            index_file: None,
            cache_control: None,
        }
    }

    /// Sets the file served for directory requests.
    pub fn index_file(self, filename: &str) -> (s: Self)
        ensures
            s@ == (StaticFilesView { index_file: Some(filename@), ..self@ }),
    {
        StaticFiles { index_file: Some(filename.to_owned()), ..self }
    }

    /// Sets the `Cache-Control` header for served files.
    pub fn cache_control(self, value: &str) -> (s: Self)
        ensures
            s@ == (StaticFilesView { cache_control: Some(value@), ..self@ }),
    {
        StaticFiles { cache_control: Some(value.to_owned()), ..self }
    }

    /// The directory files are served from.
    pub fn root_dir(&self) -> (r: &str)
        ensures
            r@ == self@.root_dir,
    {
        self.root_dir.as_str()
    }

    /// Whether this middleware looks at the request: GET or HEAD under the
    /// prefix.
    pub fn handles(&self, req: &Request) -> (b: bool)
        ensures
            b == ((req.method == Method::GET || req.method == Method::HEAD) && has_prefix(
                req.path@,
                self@.url_prefix,
            )),
    {
        if req.method != Method::GET && req.method != Method::HEAD {
            return false;
        }
        let p = chars_of(req.path.as_str());
        let u = chars_of(self.url_prefix.as_str());
        starts_with(p.as_slice(), u.as_slice())
    }

    /// The part of `url_path` below the prefix; `None` outside the prefix or
    /// for paths containing `..`.
    pub fn relative_path(&self, url_path: &str) -> (r: Option<String>)
        ensures
            match r {
                Some(s) => relative_of(self@.url_prefix, url_path@) == Some(s@),
                None => relative_of(self@.url_prefix, url_path@) is None,
            },
    {
        let p = chars_of(url_path);
        let u = chars_of(self.url_prefix.as_str());
        let mut us = chars_of(self.url_prefix.as_str());
        us.push('/');
        proof {
            reveal_strlit("/");
        }
        assert(us@ =~= self@.url_prefix + "/"@);
        let stripped: Option<Vec<char>> = if crate::text::chars_eq(p.as_slice(), u.as_slice())
            || crate::text::chars_eq(p.as_slice(), us.as_slice()) {
            Some(Vec::new())
        } else if starts_with(p.as_slice(), us.as_slice()) {
            Some(copy_range(p.as_slice(), us.len(), p.len()))
        } else {
            None
        };
        match stripped {
            Some(r) => {
                let mut fixed: Vec<char> = Vec::new();
                let mut i: usize = 0;
                while i < r.len()
                    invariant
                        i <= r@.len(),
                        fixed@ == r@.subrange(0, i as int).map_values(|c: char| if c == '\\' { '/' } else { c }),
                    decreases r@.len() - i,
                {
                    let c = r[i];
                    fixed.push(if c == '\\' { '/' } else { c });
                    assert(r@.subrange(0, i + 1).map_values(|c: char| if c == '\\' { '/' } else { c })
                        =~= r@.subrange(0, i as int).map_values(|c: char| if c == '\\' { '/' } else { c }).push(
                        if c == '\\' { '/' } else { c },
                    ));
                    i = i + 1;
                }
                assert(r@.subrange(0, r@.len() as int) =~= r@);
                let dd = chars_of("..");
                if contains_chars(fixed.as_slice(), dd.as_slice()) {
                    None
                } else {
                    Some(string_of(fixed.as_slice()))
                }
            },
            None => None,
        }
    }

    /// The first file path to try for a relative path: the index file for
    /// the directory itself (if one is set), else the root joined with the
    /// relative path.
    pub fn candidate(&self, relative: &str) -> (r: Option<String>)
        ensures
            match r {
                Some(s) => s@ == (if relative@.len() == 0 {
                    path_push(self@.root_dir, self@.index_file.unwrap())
                } else {
                    path_push(self@.root_dir, relative@)
                }) && (relative@.len() == 0 ==> self@.index_file is Some),
                None => relative@.len() == 0 && self@.index_file is None,
            },
    {
        if relative.is_empty() {
            match &self.index_file {
                Some(index) => Some(path_push_exec(self.root_dir.as_str(), index.as_str())),
                None => None,
            }
        } else {
            Some(path_push_exec(self.root_dir.as_str(), relative))
        }
    }

    /// The path to try when `dir` turned out to be a directory: its index
    /// file, if one is set.
    pub fn directory_index(&self, dir: &str) -> (r: Option<String>)
        ensures
            match r {
                Some(s) => self@.index_file is Some && s@ == path_push(dir@, self@.index_file.unwrap()),
                None => self@.index_file is None,
            },
    {
        match &self.index_file {
            Some(index) => Some(path_push_exec(dir, index.as_str())),
            None => None,
        }
    }

    /// The `last-modified` text of a file changed `secs` seconds after the
    /// Unix epoch (negative before it): the HTTP date, `None` outside the
    /// dates chrono can hold.
    pub fn last_modified(secs: i64) -> (r: Option<String>)
        ensures
            match r {
                Some(t) => http_date_text(secs as int) == Some(t@),
                None => http_date_text(secs as int) is None,
            },
    {
        http_date(secs)
    }

    /// Answers with a file's contents: guessed content type, the configured
    /// `cache-control`, the given `last-modified`; a HEAD request gets the
    /// length and no body.
    pub fn serve(
        &self,
        res: &mut Response,
        file_path: &str,
        contents: Vec<u8>,
        last_modified: Option<&str>,
        is_head: bool,
    )
        ensures
            ({
                let h1 = old(res).headers@.insert("content-type"@, guessed_mime(file_path@));
                let h2 = match self@.cache_control {
                    Some(c) => h1.insert("cache-control"@, c),
                    None => h1,
                };
                let h3 = match last_modified {
                    Some(l) => h2.insert("last-modified"@, l@),
                    None => h2,
                };
                &&& final(res).sent
                &&& final(res).set_cookies == old(res).set_cookies
                &&& is_head ==> final(res).headers@ == h3.insert("content-length"@, decimal(contents@.len()))
                    && final(res).status_code == 200 && final(res).body@.len() == 0
                &&& !is_head ==> final(res).headers@ == h3 && final(res).body@ == contents@
                    && final(res).status_code == old(res).status_code
            }),
    {
        let mime = mime_for_path(file_path);
        res.header("content-type", mime.as_str());
        match &self.cache_control {
            Some(c) => {
                res.header("cache-control", c.as_str());
            },
            None => {},
        }
        match last_modified {
            Some(l) => {
                res.header("last-modified", l);
            },
            None => {},
        }
        if is_head {
            let len_text = u64_string(contents.len() as u64);
            res.header("content-length", len_text.as_str());
            res.send_status(200);
        } else {
            res.send_bytes(contents);
        }
    }
}

// ---------------------------------------------------------------------
// Compression
// ---------------------------------------------------------------------

/// What gzip (flate2's `GzEncoder` at the given level, no header extras)
/// makes of `data`; `None` when encoding fails.
pub uninterp spec fn gzip_of(data: Seq<u8>, level: u32) -> Option<Seq<u8>>;

/// Gzip-compresses `data` with flate2 at `level` (flate2 takes levels up
/// to 10; a larger one fails its debug assertion).
#[verifier::external_body]
fn gzip(data: &[u8], level: u32) -> (r: Option<Vec<u8>>)
    requires
        level <= 10,
    ensures
        match r {
            Some(c) => gzip_of(data@, level) == Some(c@),
            None => gzip_of(data@, level) is None,
        },
{
    let mut e = flate2::write::GzEncoder::new(Vec::new(), flate2::Compression::new(level));
    if e.write_all(data).is_err() {
        return None;
    }
    e.finish().ok()
}

/// The level gzip runs at: the configured one, levels above 10 taken as 10
/// (the highest flate2 has).
pub open spec fn effective_level(level: u32) -> u32 {
    if level > 10 {
        10
    } else {
        level
    }
}

/// Text-like content types are worth compressing.
pub open spec fn compressible(ct: Seq<char>) -> bool {
    has_prefix(ct, "text/"@) || contains_seq(ct, "json"@) || contains_seq(ct, "javascript"@)
        || contains_seq(ct, "xml"@) || contains_seq(ct, "svg"@) || contains_seq(ct, "html"@)
}

/// What compression does to a response: when the client accepts gzip, the
/// body is at least `min` bytes, its content type is compressible and it is
/// not encoded yet, a smaller gzip body takes its place (with
/// `Content-Encoding` and `Vary`); otherwise nothing changes.
pub open spec fn compressed_after(min: usize, level: u32, req: Request, before: Response, after: Response) -> bool {
    let eligible = (req.header_value("accept-encoding"@) matches Some(ae) && contains_seq(ae, "gzip"@))
        && before.body@.len() >= min && compressible(
        if before.headers@.contains_key("content-type"@) {
            before.headers@["content-type"@]
        } else {
            Seq::empty()
        },
    ) && !before.headers@.contains_key("content-encoding"@);
    let g = gzip_of(before.body@, effective_level(level));
    if eligible && g is Some && g.unwrap().len() < before.body@.len() {
        after.body@ == g.unwrap() && after.headers@ == before.headers@.insert("Content-Encoding"@, "gzip"@).insert(
            "Vary"@,
            "Accept-Encoding"@,
        ) && after.status_code == before.status_code && after.set_cookies == before.set_cookies && after.sent
            == before.sent
    } else {
        after == before
    }
}

/// Gzip compression of response bodies for clients that accept it.
pub struct CompressionMiddleware {
    min_size: usize,
    level: u32,
}

impl CompressionMiddleware {
    pub closed spec fn min(&self) -> usize {
        self.min_size
    }

    pub closed spec fn compression_level(&self) -> u32 {
        self.level
    }

    /// Compresses bodies of 1024 bytes or more at the default level (6).
    pub fn new() -> (c: Self)
        ensures
            c.min() == 1024,
            c.compression_level() == 6,
    {
        CompressionMiddleware { min_size: 1024, level: 6 }
    }

    /// Compresses bodies of at least `min_size` bytes at the default level.
    pub fn with_min_size(min_size: usize) -> (c: Self)
        ensures
            c.min() == min_size,
            c.compression_level() == 6,
    {
        CompressionMiddleware { min_size, level: 6 }
    }

    /// Sets the compression level (0-9; 10 is the highest there is, and a
    /// larger level compresses as 10 does).
    pub fn level(self, level: u32) -> (c: Self)
        ensures
            c.min() == self.min(),
            c.compression_level() == level,
    {
        CompressionMiddleware { min_size: self.min_size, level }
    }

    /// Whether a content type is compressible.
    pub fn is_compressible(content_type: &str) -> (b: bool)
        ensures
            b == compressible(content_type@),
    {
        let ct = chars_of(content_type);
        let text = chars_of("text/");
        starts_with(ct.as_slice(), text.as_slice()) || str_contains(content_type, "json")
            || str_contains(content_type, "javascript") || str_contains(content_type, "xml")
            || str_contains(content_type, "svg") || str_contains(content_type, "html")
    }

    /// Compresses the body when the client accepts gzip, the body is at
    /// least the minimum size, the content type is compressible, there is no
    /// `content-encoding` yet, and the result is smaller.
    pub fn after(&self, req: &Request, res: &mut Response)
        ensures
            compressed_after(self.min(), self.compression_level(), *req, *old(res), *final(res)),
    {
        let accepts = match req.header("accept-encoding") {
            Some(ae) => str_contains(ae, "gzip"),
            None => false,
        };
        if !accepts {
            return;
        }
        if res.body.len() < self.min_size {
            return;
        }
        let ct: String = match res.headers.get("content-type") {
            Some(c) => c.clone(),
            None => String::new(),
        };
        if !Self::is_compressible(ct.as_str()) {
            return;
        }
        if res.headers.contains_key("content-encoding") {
            return;
        }
        let level: u32 = if self.level > 10 {
            10
        } else {
            self.level
        };
        let compressed = gzip(res.body.as_slice(), level);
        Self::use_compressed(res, compressed);
    }

    /// Puts a compressed body in place when there is one and it is smaller
    /// than the body, marking the response as gzip-encoded.
    pub fn use_compressed(res: &mut Response, compressed: Option<Vec<u8>>)
        ensures
            match compressed {
                Some(c) => if c@.len() < old(res).body@.len() {
                    final(res).body@ == c@ && final(res).headers@ == old(res).headers@.insert(
                        "Content-Encoding"@,
                        "gzip"@,
                    ).insert("Vary"@, "Accept-Encoding"@) && final(res).status_code == old(res).status_code
                        && final(res).set_cookies == old(res).set_cookies && final(res).sent == old(res).sent
                } else {
                    *final(res) == *old(res)
                },
                None => *final(res) == *old(res),
            },
    {
        match compressed {
            Some(c) => {
                if c.len() < res.body.len() {
                    res.body = c;
                    res.header("Content-Encoding", "gzip");
                    res.header("Vary", "Accept-Encoding");
                }
            },
            None => {},
        }
    }
}

// ---------------------------------------------------------------------
// Error handling
// ---------------------------------------------------------------------

/// The JSON error answer: `{"error":{"code":<status>,"message":<text>}}`.
pub open spec fn error_json(code: u16, quoted_message: Seq<char>) -> Seq<char> {
    "{\"error\":{\"code\":"@ + decimal(code as nat) + ",\"message\":"@ + quoted_message + "}}"@
}

/// How the default error handler answers an error: the error's status and
/// a JSON body with its code and message.
pub open spec fn error_answered(error: Error, before: Response, after: Response) -> bool {
    &&& after.status_code == error_status(error)
    &&& after.headers@ == before.headers@.insert("content-type"@, "application/json; charset=utf-8"@)
    &&& after.sent
    &&& after.set_cookies == before.set_cookies
    &&& exists|msg: Seq<char>|
        (crate::error::error_message_text(error) matches Some(t) ==> msg == t) && after.body@ == encode_utf8(
            #[trigger] error_json(error_status(error), json_quoted(msg)),
        )
}

/// Answers errors with their status code and a JSON error object.
pub struct DefaultErrorHandler;

impl DefaultErrorHandler {
    /// Sets the status of `error` and a JSON body holding its code and
    /// message.
    pub fn handle_error(&self, error: &Error, req: &Request, res: &mut Response)
        ensures
            error_answered(*error, *old(res), *final(res)),
    {
        let status = error.status_code();
        let msg = error.to_string();
        let quoted = json_quote(msg.as_str());
        let mut body = chars_of("{\"error\":{\"code\":");
        push_decimal(&mut body, status as u64);
        let mid = chars_of(",\"message\":");
        push_all(&mut body, mid.as_slice());
        let q = chars_of(quoted.as_str());
        push_all(&mut body, q.as_slice());
        let tail = chars_of("}}");
        push_all(&mut body, tail.as_slice());
        assert(body@ =~= error_json(status, json_quoted(msg@)));
        res.status(status).json_bytes(Ok(crate::text::encode_chars(body.as_slice())));
    }
}

} // verus!

verus! {

// ---------------------------------------------------------------------
// The middleware interface
// ---------------------------------------------------------------------

/// Pre- and post-processing hooks around the route handler. `before`
/// hooks run in registration order; returning `false` answers at once.
/// `after` hooks run in reverse order.
pub trait Middleware {
    /// What `before` does: the request and response before it and after,
    /// and whether the chain goes on. Says nothing unless the middleware
    /// states it.
    open spec fn admits(&self, req: Request, res: Response, req_after: Request, res_after: Response, cont: bool) -> bool {
        true
    }

    /// What `after` does. Says nothing unless the middleware states it.
    open spec fn finishes(&self, req: Request, res: Response, req_after: Request, res_after: Response) -> bool {
        true
    }

    /// Called before the route handler; `false` stops the chain.
    fn before(&self, req: &mut Request, res: &mut Response) -> (cont: bool)
        ensures
            self.admits(*old(req), *old(res), *final(req), *final(res), cont),
    ;

    /// Called after the route handler; a middleware with nothing to do
    /// afterwards gives it an empty body.
    fn after(&self, req: &mut Request, res: &mut Response)
        ensures
            self.finishes(*old(req), *old(res), *final(req), *final(res)),
    ;

    /// A name for this middleware.
    fn name(&self) -> (n: &str)
        default_ensures
            n@ == "unnamed"@,
    {
        "unnamed"
    }
}

/// Produces the response for an error.
pub trait ErrorHandler {
    /// Handles an error by setting the response.
    fn handle_error(&self, error: &Error, req: &Request, res: &mut Response);
}

impl ErrorHandler for DefaultErrorHandler {
    fn handle_error(&self, error: &Error, req: &Request, res: &mut Response)
        ensures
            error_answered(*error, *old(res), *final(res)),
    {
        DefaultErrorHandler::handle_error(self, error, req, res);
    }
}

impl Middleware for Cors {
    open spec fn admits(&self, req: Request, res: Response, req_after: Request, res_after: Response, cont: bool) -> bool {
        cors_applied(self@, req, res, res_after, cont) && req_after == req
    }

    open spec fn finishes(&self, req: Request, res: Response, req_after: Request, res_after: Response) -> bool {
        req_after == req && res_after == res
    }

    fn before(&self, req: &mut Request, res: &mut Response) -> (cont: bool) {
        Cors::before(self, req, res)
    }

    fn after(&self, req: &mut Request, res: &mut Response) {
    }

    fn name(&self) -> (n: &str)
        ensures
            n@ == "cors"@,
    {
        "cors"
    }
}

impl Middleware for CompressionMiddleware {
    open spec fn admits(&self, req: Request, res: Response, req_after: Request, res_after: Response, cont: bool) -> bool {
        cont && req_after == req && res_after == res
    }

    open spec fn finishes(&self, req: Request, res: Response, req_after: Request, res_after: Response) -> bool {
        compressed_after(self.min(), self.compression_level(), req, res, res_after) && req_after == req
    }

    fn before(&self, req: &mut Request, res: &mut Response) -> (cont: bool) {
        true
    }

    fn after(&self, req: &mut Request, res: &mut Response) {
        CompressionMiddleware::after(self, req, res);
    }

    fn name(&self) -> (n: &str)
        ensures
            n@ == "compression"@,
    {
        "compression"
    }
}

} // verus!

verus! {

/// A client over the limit stays refused until its window has passed.
pub proof fn law_refused_until_window_passes(
    prev: Option<WindowCounter>,
    now: u64,
    later: u64,
    window_ms: u64,
    max: u64,
)
    requires
        counter_after(prev, now, window_ms).count > max,
        counter_after(prev, now, window_ms).window_start <= later,
        later - counter_after(prev, now, window_ms).window_start < window_ms,
    ensures
        counter_after(Some(counter_after(prev, now, window_ms)), later, window_ms).count > max,
{
}

/// A request in a passed window starts a new window, counted once.
pub proof fn law_window_resets(c: WindowCounter, now: u64, window_ms: u64)
    requires
        now >= c.window_start,
        now - c.window_start >= window_ms,
    ensures
        counter_after(Some(c), now, window_ms) == (WindowCounter { count: 1, window_start: now }),
{
}

/// The counter a client's requests leave, made at the given times in
/// order (`None` before the first).
pub open spec fn window_run(times: Seq<u64>, window_ms: u64) -> Option<WindowCounter>
    decreases times.len(),
{
    if times.len() == 0 {
        None
    } else {
        Some(counter_after(window_run(times.drop_last(), window_ms), times.last(), window_ms))
    }
}

/// Within one window from a client's first request, its `i`-th request
/// leaves the count at `i`, so exactly the first `max` requests pass (a
/// request passes when the count it leaves is at most `max`).
pub proof fn law_first_max_pass(times: Seq<u64>, window_ms: u64, max: u64)
    requires
        times.len() > 0,
        times.len() < u64::MAX,
        forall|k: int| 0 <= k < times.len() ==> times[0] <= #[trigger] times[k] && times[k] - times[0] < window_ms,
    ensures
        window_run(times, window_ms) == Some(WindowCounter { count: times.len() as u64, window_start: times[0] }),
        (window_run(times, window_ms)->0.count <= max) == (times.len() <= max),
    decreases times.len(),
{
    if times.len() > 1 {
        let pre = times.drop_last();
        assert forall|k: int| 0 <= k < pre.len() implies pre[0] <= #[trigger] pre[k] && pre[k] - pre[0] < window_ms by {
            assert(pre[k] == times[k]);
        }
        law_first_max_pass(pre, window_ms, max);
        assert(times[times.len() - 1] == times.last());
        assert(times[0] <= times[times.len() - 1] && times[times.len() - 1] - times[0] < window_ms);
        assert(pre[0] == times[0]);
        law_window_counts(window_run(pre, window_ms)->0, times.last(), window_ms);
        assert(window_run(times, window_ms) == Some(
            counter_after(window_run(pre, window_ms), times.last(), window_ms),
        ));
    } else {
        assert(times.drop_last().len() == 0);
        assert(window_run(times.drop_last(), window_ms) is None);
        assert(times.last() == times[0]);
    }
}

/// Within a window, each request adds one to the count.
pub proof fn law_window_counts(c: WindowCounter, now: u64, window_ms: u64)
    requires
        now >= c.window_start,
        now - c.window_start < window_ms,
        c.count < u64::MAX,
    ensures
        counter_after(Some(c), now, window_ms) == (WindowCounter { count: (c.count + 1) as u64, window_start: c.window_start }),
{
}

} // verus!

verus! {

/// A relative path the static files middleware accepts never climbs out of
/// its root: it holds no `..` and no `\`.
pub proof fn law_relative_path_stays_below(prefix: Seq<char>, url_path: Seq<char>)
    requires
        relative_of(prefix, url_path) is Some,
    ensures
        !contains_seq(relative_of(prefix, url_path)->0, ".."@),
        forall|i: int| 0 <= i < relative_of(prefix, url_path)->0.len() ==> #[trigger] relative_of(prefix, url_path)->0[i] != '\\',
{
}

} // verus!

verus! {

impl Default for CompressionMiddleware {
    fn default() -> (c: Self)
        ensures
            c.min() == 1024,
            c.compression_level() == 6,
    {
        CompressionMiddleware::new()
    }
}

impl Default for Logger {
    fn default() -> (l: Self)
        ensures
            l.log_format() == LogFormat::Standard,
    {
        Logger::new()
    }
}

impl Default for Cors {
    fn default() -> (c: Self)
        ensures
            c@ == (CorsView {
                allow_origin: ""@,
                allow_methods: "GET, HEAD, OPTIONS"@,
                allow_headers: "Content-Type"@,
                allow_credentials: false,
                expose_headers: ""@,
                max_age: None,
            }),
    {
        Cors::new()
    }
}

} // verus!

verus! {

/// A client is its IP address: every request from one address counts
/// against the same window, whatever port or connection it comes from.
pub proof fn law_client_is_ip(a: Request, b: Request)
    requires
        a.remote_addr is Some,
        b.remote_addr is Some,
        a.remote_addr->0.ip@ == b.remote_addr->0.ip@,
    ensures
        client_key_of(a) == a.remote_addr->0.ip@,
        client_key_of(a) == client_key_of(b),
{
}

/// Without a peer address a client is the `X-Forwarded-For` it gives, and
/// all such requests without one share the key `unknown`.
pub proof fn law_client_without_address(r: Request)
    requires
        r.remote_addr is None,
    ensures
        r.header_value("x-forwarded-for"@) matches Some(f) ==> client_key_of(r) == f,
        r.header_value("x-forwarded-for"@) is None ==> client_key_of(r) == "unknown"@,
{
}

/// Text-like bodies are compressible: any `text/` type, and any type
/// naming JSON, JavaScript, XML, SVG or HTML; nothing else is.
pub proof fn law_text_like_compressible(ct: Seq<char>)
    ensures
        has_prefix(ct, "text/"@) ==> compressible(ct),
        contains_seq(ct, "json"@) ==> compressible(ct),
        contains_seq(ct, "javascript"@) ==> compressible(ct),
        contains_seq(ct, "xml"@) ==> compressible(ct),
        contains_seq(ct, "svg"@) ==> compressible(ct),
        contains_seq(ct, "html"@) ==> compressible(ct),
        compressible(ct) ==> has_prefix(ct, "text/"@) || contains_seq(ct, "json"@) || contains_seq(
            ct,
            "javascript"@,
        ) || contains_seq(ct, "xml"@) || contains_seq(ct, "svg"@) || contains_seq(ct, "html"@),
{
}

} // verus!
