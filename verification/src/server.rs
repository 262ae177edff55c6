//! The decisions a connection makes: when a request has been read whole,
//! whether the connection stays open, and the answers the server gives on
//! its own (bad requests, unknown paths). Reading and writing sockets is the
//! caller's part.

use vstd::prelude::*;

use crate::decimal::{parse_usize, parse_usize_chars, push_decimal};
use crate::error::{error_message_text, Error};
use crate::middleware::{error_json, json_quote, json_quoted};
use crate::context::SharedState;
use crate::request::{chars_eq_ignore_ascii_case, eq_ignore_ascii_case, method_name, PeerAddr, Request};
use crate::response::Response;
use crate::middleware::Middleware;
use crate::router::{first_ws_match, route_match, routed, Handler, Router};
use crate::strmap::StrMap;
use crate::text::{
    ascii_lower, chars_of, contains_seq, copy_range, encode_chars, lines, lines_of, lossy_string,
    lowercase, push_all, str_eq, to_lowercase, trim, trim_chars, utf8_lossy, views,
};
use vstd::utf8::encode_utf8;

verus! {

/// The HTTP server. Its connection loop runs outside the library and asks
/// the functions of this module what to do.
pub struct Server;

// ---------------------------------------------------------------------
// Reading a request
// ---------------------------------------------------------------------

/// Whether `\r\n\r\n` starts at `i`.
pub open spec fn blank_line_at(data: Seq<u8>, i: int) -> bool {
    0 <= i && i + 4 <= data.len() && data[i] == 13 && data[i + 1] == 10 && data[i + 2] == 13 && data[i
        + 3] == 10
}

/// The first position at or after `i` where `\r\n\r\n` starts.
pub open spec fn blank_line_from(data: Seq<u8>, i: int) -> Option<int>
    decreases data.len() - i,
{
    if i < 0 || i + 4 > data.len() {
        None
    } else if blank_line_at(data, i) {
        Some(i)
    } else {
        blank_line_from(data, i + 1)
    }
}

/// Where the headers of a request end: the first `\r\n\r\n`.
pub open spec fn header_end_of(data: Seq<u8>) -> Option<int> {
    blank_line_from(data, 0)
}

/// Finds the first `\r\n\r\n`.
pub fn find_header_end(data: &[u8]) -> (r: Option<usize>)
    ensures
        match r {
            Some(i) => header_end_of(data@) == Some(i as int),
            None => header_end_of(data@) is None,
        },
{
    let n = data.len();
    if n < 4 {
        return None;
    }
    let mut i: usize = 0;
    while i <= n - 4
        invariant
            n == data@.len() >= 4,
            header_end_of(data@) == blank_line_from(data@, i as int),
        decreases n - i,
    {
        if data[i] == 13 && data[i + 1] == 10 && data[i + 2] == 13 && data[i + 3] == 10 {
            return Some(i);
        }
        i = i + 1;
    }
    None
}

/// The length a header line declares, if it is a `Content-Length` line
/// (name matched without regard to ASCII case): the number after the
/// colon, or 0 when it is not one.
pub open spec fn length_line(line: Seq<char>) -> Option<nat> {
    if line.len() >= 15 && eq_ignore_ascii_case(line.subrange(0, 15), "content-length:"@) {
        match parse_usize(trim(line.subrange(15, line.len() as int))) {
            Some(n) => Some(n),
            None => Some(0),
        }
    } else {
        None
    }
}

/// The length the last `Content-Length` line of a list declares (0 when
/// there is none).
pub open spec fn declared_length(lines: Seq<Seq<char>>) -> nat
    decreases lines.len(),
{
    if lines.len() == 0 {
        0
    } else {
        match length_line(lines.last()) {
            Some(n) => n,
            None => declared_length(lines.drop_last()),
        }
    }
}

/// The body length the headers of a request declare.
pub open spec fn head_content_length(head: Seq<u8>) -> nat {
    declared_length(lines_of(utf8_lossy(head)))
}

fn length_of_line(line: &[char]) -> (r: Option<usize>)
    ensures
        match r {
            Some(n) => length_line(line@) == Some(n as nat),
            None => length_line(line@) is None,
        },
{
    if line.len() < 15 {
        return None;
    }
    let name = copy_range(line, 0, 15);
    let want = chars_of("content-length:");
    if !chars_eq_ignore_ascii_case(name.as_slice(), want.as_slice()) {
        return None;
    }
    let rest = copy_range(line, 15, line.len());
    let t = trim_chars(rest.as_slice());
    match parse_usize_chars(t.as_slice()) {
        Some(n) => Some(n),
        None => Some(0),
    }
}

/// The body length declared by the headers in `head` (the bytes before
/// `\r\n\r\n`), read as text.
pub fn declared_content_length(head: &[u8]) -> (n: usize)
    ensures
        n == head_content_length(head@),
{
    let text = lossy_string(head);
    let chars = chars_of(text.as_str());
    let ls = lines(chars.as_slice());
    let ghost lv = views(ls@);
    let mut n: usize = 0;
    let mut i: usize = 0;
    while i < ls.len()
        invariant
            i <= ls@.len(),
            lv == views(ls@),
            n == declared_length(lv.subrange(0, i as int)),
        decreases ls@.len() - i,
    {
        let ghost pre = lv.subrange(0, i + 1);
        assert(pre.drop_last() =~= lv.subrange(0, i as int));
        assert(pre.last() == ls@[i as int]@);
        match length_of_line(ls[i].as_slice()) {
            Some(m) => {
                n = m;
            },
            None => {},
        }
        i = i + 1;
    }
    assert(lv.subrange(0, ls@.len() as int) =~= lv);
    n
}

/// What to do after bytes arrived: read more, or the request is whole, or
/// it is larger than allowed.
#[derive(Debug, Clone, Copy, PartialEq, Eq, Structural)]
pub enum ReadStep {
    Continue,
    Done,
    TooLarge,
}

/// How a stream stopped giving bytes.
#[derive(PartialEq, Eq, Structural, Clone, Copy, Debug)]
pub enum ReadEnd {
    /// The peer closed the connection.
    Closed,
    /// Nothing is ready to read yet.
    WouldBlock,
    /// The read timed out.
    TimedOut,
}

/// What to do when a stream stops giving bytes.
#[derive(PartialEq, Eq, Structural, Clone, Copy, Debug)]
pub enum EndStep {
    /// There is no request: stop reading and close.
    NoRequest,
    /// Read again.
    KeepWaiting,
    /// The request took too long.
    Timeout,
}

/// The step for a stream that stopped giving bytes, given what arrived.
pub open spec fn end_step(r: ReaderView, how: ReadEnd) -> EndStep {
    match how {
        ReadEnd::Closed => EndStep::NoRequest,
        ReadEnd::WouldBlock => if r.buffer.len() == 0 {
            EndStep::NoRequest
        } else {
            EndStep::KeepWaiting
        },
        ReadEnd::TimedOut => if r.buffer.len() == 0 {
            EndStep::NoRequest
        } else {
            EndStep::Timeout
        },
    }
}

/// What a request reader has seen.
pub struct ReaderView {
    pub buffer: Seq<u8>,
    pub max_size: usize,
    pub header_end: Option<nat>,
    pub content_length: nat,
}

/// The reader after `data` arrived, and the step to take.
pub open spec fn reader_after(r: ReaderView, data: Seq<u8>) -> (ReaderView, ReadStep) {
    let b = r.buffer + data;
    if b.len() > r.max_size {
        (ReaderView { buffer: b, ..r }, ReadStep::TooLarge)
    } else {
        let (he, cl) = match r.header_end {
            Some(e) => (Some(e), r.content_length),
            None => match header_end_of(b) {
                Some(pos) => (Some((pos + 4) as nat), head_content_length(b.subrange(0, pos))),
                None => (None, r.content_length),
            },
        };
        let step = match he {
            Some(e) => if b.len() - e >= cl {
                ReadStep::Done
            } else {
                ReadStep::Continue
            },
            None => ReadStep::Continue,
        };
        (ReaderView { buffer: b, max_size: r.max_size, header_end: he, content_length: cl }, step)
    }
}

/// Collects the bytes of one request: the headers up to `\r\n\r\n`, then as
/// many body bytes as `Content-Length` declares.
pub struct RequestReader {
    buffer: Vec<u8>,
    max_size: usize,
    header_end: Option<usize>,
    content_length: usize,
}

impl View for RequestReader {
    type V = ReaderView;

    closed spec fn view(&self) -> ReaderView {
        ReaderView {
            buffer: self.buffer@,
            max_size: self.max_size,
            header_end: match self.header_end {
                Some(e) => Some(e as nat),
                None => None,
            },
            content_length: self.content_length as nat,
        }
    }
}

impl RequestReader {
    /// A reader that refuses requests over `max_size` bytes.
    pub fn new(max_size: usize) -> (r: Self)
        ensures
            r@ == (ReaderView { buffer: Seq::empty(), max_size, header_end: None, content_length: 0 }),
    {
        RequestReader { buffer: Vec::new(), max_size, header_end: None, content_length: 0 }
    }

    /// Whether nothing has arrived yet.
    pub fn is_empty(&self) -> (b: bool)
        ensures
            b == (self@.buffer.len() == 0),
    {
        self.buffer.len() == 0
    }

    /// What to do when the stream gives no more bytes for now: a closed
    /// stream means no request (what had arrived is dropped); a stream with
    /// nothing ready or one that timed out means no request when nothing
    /// had arrived, else wait on, or give up with a timeout.
    pub fn on_end(&self, how: ReadEnd) -> (step: EndStep)
        ensures
            step == end_step(self@, how),
    {
        match how {
            ReadEnd::Closed => EndStep::NoRequest,
            ReadEnd::WouldBlock => if self.buffer.len() == 0 {
                EndStep::NoRequest
            } else {
                EndStep::KeepWaiting
            },
            ReadEnd::TimedOut => if self.buffer.len() == 0 {
                EndStep::NoRequest
            } else {
                EndStep::Timeout
            },
        }
    }

    /// The bytes received so far.
    pub fn into_bytes(self) -> (b: Vec<u8>)
        ensures
            b@ == self@.buffer,
    {
        let RequestReader { buffer, .. } = self;
        buffer
    }

    /// Takes in bytes that arrived and says what to do next.
    pub fn on_data(&mut self, data: &[u8]) -> (step: ReadStep)
        ensures
            (final(self)@, step) == reader_after(old(self)@, data@),
    {
        push_all(&mut self.buffer, data);
        if self.buffer.len() > self.max_size {
            return ReadStep::TooLarge;
        }
        match self.header_end {
            Some(_) => {},
            None => match find_header_end(self.buffer.as_slice()) {
                Some(pos) => {
                    proof {
                        lemma_blank_line_within(self.buffer@, 0, pos as int);
                    }
                    let head = copy_range(self.buffer.as_slice(), 0, pos);
                    let cl = declared_content_length(head.as_slice());
                    self.header_end = Some(pos + 4);
                    self.content_length = cl;
                },
                None => {},
            },
        }
        match self.header_end {
            Some(e) => if self.buffer.len() >= e && self.buffer.len() - e >= self.content_length {
                ReadStep::Done
            } else {
                ReadStep::Continue
            },
            None => ReadStep::Continue,
        }
    }
}

/// A blank line found from `i` lies inside the data.
pub proof fn lemma_blank_line_within(data: Seq<u8>, i: int, p: int)
    requires
        blank_line_from(data, i) == Some(p),
    ensures
        i <= p,
        p + 4 <= data.len(),
    decreases data.len() - i,
{
    if !(i < 0 || i + 4 > data.len()) && !blank_line_at(data, i) {
        lemma_blank_line_within(data, i + 1, p);
    }
}

// ---------------------------------------------------------------------
// Keep-alive
// ---------------------------------------------------------------------

/// A connection stays open when keep-alive is on, the request is
/// HTTP/1.1 and it did not ask for `Connection: close`.
pub open spec fn keeps_alive(keep_alive: bool, req: Request) -> bool {
    let conn = match req.header_value("connection"@) {
        Some(v) => v,
        None => Seq::empty(),
    };
    keep_alive && contains_seq(req.http_version@, "1.1"@) && lowercase(conn) != "close"@
}

/// Whether the connection stays open after answering `req`.
pub fn should_keep_alive(keep_alive: bool, req: &Request) -> (b: bool)
    ensures
        b == keeps_alive(keep_alive, *req),
{
    let conn = match req.header("connection") {
        Some(v) => v,
        None => "",
    };
    proof {
        reveal_strlit("");
    }
    let low = to_lowercase(conn);
    let version = chars_of(req.http_version.as_str());
    let one_one = chars_of("1.1");
    let has = match crate::text::find(version.as_slice(), one_one.as_slice()) {
        Some(i) => {
            assert(crate::text::occurs_at(version@, one_one@, i as int));
            true
        },
        None => {
            proof {
                reveal(crate::text::find_seq);
            }
            false
        },
    };
    assert(has == contains_seq(req.http_version@, "1.1"@));
    let ghost cv = match req.header_value("connection"@) {
        Some(v) => v,
        None => Seq::empty(),
    };
    assert(conn@ == cv);
    keep_alive && has && !str_eq(low.as_str(), "close")
}

/// The headers that tell the client whether the connection stays open.
pub open spec fn connection_headers(h: Map<Seq<char>, Seq<char>>, keep: bool, timeout_secs: u64) -> Map<
    Seq<char>,
    Seq<char>,
> {
    if keep {
        h.insert("Connection"@, "keep-alive"@).insert(
            "Keep-Alive"@,
            "timeout="@ + crate::decimal::decimal(timeout_secs as nat),
        )
    } else {
        h.insert("Connection"@, "close"@)
    }
}

/// Sets `Connection` (and `Keep-Alive` with its timeout in seconds).
pub fn set_connection_headers(res: &mut Response, keep: bool, timeout_secs: u64)
    ensures
        final(res).headers@ == connection_headers(old(res).headers@, keep, timeout_secs),
        final(res).status_code == old(res).status_code,
        final(res).body == old(res).body,
        final(res).set_cookies == old(res).set_cookies,
        final(res).sent == old(res).sent,
{
    if keep {
        res.header("Connection", "keep-alive");
        let mut t = chars_of("timeout=");
        push_decimal(&mut t, timeout_secs);
        let ts = crate::text::string_of(t.as_slice());
        res.header("Keep-Alive", ts.as_str());
    } else {
        res.header("Connection", "close");
    }
}

// ---------------------------------------------------------------------
// Answers of the server's own
// ---------------------------------------------------------------------

/// The text of the 404 answer for a request no route matched.
pub open spec fn cannot_text(req: Request) -> Seq<char> {
    "Cannot "@ + method_name(req.method) + " "@ + req.path@
}

/// Answers a request that no route matched: 404 with a JSON error.
pub fn not_found(req: &Request, res: &mut Response)
    ensures
        not_found_answer(*req, *old(res), *final(res)),
{
    let mut msg = chars_of("Cannot ");
    let m = chars_of(req.method.as_str());
    push_all(&mut msg, m.as_slice());
    let sp = chars_of(" ");
    push_all(&mut msg, sp.as_slice());
    let p = chars_of(req.path.as_str());
    push_all(&mut msg, p.as_slice());
    let ms = crate::text::string_of(msg.as_slice());
    assert(ms@ =~= cannot_text(*req));
    let quoted = json_quote(ms.as_str());
    let mut body = chars_of("{\"error\":{\"code\":");
    push_decimal(&mut body, 404);
    let mid = chars_of(",\"message\":");
    push_all(&mut body, mid.as_slice());
    let q = chars_of(quoted.as_str());
    push_all(&mut body, q.as_slice());
    let tail = chars_of("}}");
    push_all(&mut body, tail.as_slice());
    assert(body@ =~= error_json(404, json_quoted(cannot_text(*req))));
    res.status(404).json_bytes(Ok(encode_chars(body.as_slice())));
}

/// The answer to a request that could not be parsed: 400 with the
/// error's text.
pub open spec fn bad_request_answer(error: Error, res: Response) -> bool {
    &&& res.status_code == 400
    &&& error_message_text(error) matches Some(t) ==> res.body@ == encode_utf8("Bad Request: "@ + t)
    &&& res.sent
}

/// Answers a request that could not be parsed: 400 with the error's text.
pub fn bad_request(error: &Error) -> (res: Response)
    ensures
        bad_request_answer(*error, res),
{
    let mut res = Response::new();
    let mut t = chars_of("Bad Request: ");
    let e = error.to_string();
    let ec = chars_of(e.as_str());
    push_all(&mut t, ec.as_slice());
    let ts = crate::text::string_of(t.as_slice());
    res.status(400).send(ts.as_str());
    res
}

/// The answer to an upgrade request that no WebSocket route takes: 404.
pub open spec fn ws_not_found_answer(res: Response) -> bool {
    &&& res.status_code == 404
    &&& res.body@ == encode_utf8("WebSocket endpoint not found"@)
    &&& res.sent
}

/// Answers an upgrade request that no WebSocket route takes: 404.
pub fn ws_not_found() -> (res: Response)
    ensures
        ws_not_found_answer(res),
{
    let mut res = Response::new();
    res.status(404).send("WebSocket endpoint not found");
    res
}

// ---------------------------------------------------------------------
// One request
// ---------------------------------------------------------------------

/// One step of running a request through the middleware chain.
pub enum ChainStep {
    /// The `before` hook of the middleware at this position.
    Before(usize),
    /// The route's handler (or the 404 answer when no route matches).
    Route,
    /// The `after` hook of the middleware at this position.
    After(usize),
}

/// How many steps a run takes with `n` middleware when the `before` hook
/// at `stop` declined (`None`: none declined).
pub open spec fn chain_len(n: nat, stop: Option<nat>) -> nat {
    match stop {
        Some(s) => s + 1,
        None => 2 * n + 1,
    }
}

/// Step `k` of such a run: the `before` hooks in order (up to the one that
/// declined, where the chain ends); when none declined, the route and then
/// every `after` hook from the last middleware to the first.
pub open spec fn chain_step_at(n: nat, stop: Option<nat>, k: int) -> ChainStep {
    if k < n || stop is Some {
        ChainStep::Before(k as usize)
    } else if k == n {
        ChainStep::Route
    } else {
        ChainStep::After((2 * n - k) as usize)
    }
}

/// The request and response before step `k` of a run: those the chain
/// started from, or those the previous step left.
pub open spec fn state_before(
    req: Request,
    res: Response,
    run: Seq<(ChainStep, Request, Response)>,
    k: int,
) -> (Request, Response) {
    if k <= 0 {
        (req, res)
    } else {
        (run[k - 1].1, run[k - 1].2)
    }
}

/// The response as the server starts it: 200, no headers, no body.
pub open spec fn is_fresh(res: Response) -> bool {
    &&& res.status_code == 200
    &&& res.headers@ == Map::<Seq<char>, Seq<char>>::empty()
    &&& res.set_cookies@.len() == 0
    &&& res.body@.len() == 0
    &&& !res.sent
    &&& !res.is_upgrade
}

/// The 404 answer for a request no route takes: a JSON error naming the
/// method and path.
pub open spec fn not_found_answer(req: Request, res: Response, res_after: Response) -> bool {
    &&& res_after.status_code == 404
    &&& res_after.body@ == encode_utf8(error_json(404, json_quoted(cannot_text(req))))
    &&& res_after.headers@ == res.headers@.insert("content-type"@, "application/json; charset=utf-8"@)
    &&& res_after.set_cookies == res.set_cookies
    &&& res_after.sent
}

/// The route step: the router handles the request, or, when no route of
/// any method takes the path, the 404 answer.
pub open spec fn route_step<H: Handler, W>(
    router: Router<H, W>,
    req: Request,
    res: Response,
    req_after: Request,
    res_after: Response,
) -> bool {
    ||| routed(router, req, res, req_after, res_after, true)
    ||| routed(router, req, res, req, res, false) && req_after == req && not_found_answer(req, res, res_after)
}

/// One step of a run as the middleware's and the router's contracts state
/// it; a `before` hook goes on exactly when it is not the one at `stop`.
pub open spec fn step_holds<H: Handler, W, M: Middleware>(
    router: Router<H, W>,
    mws: Seq<M>,
    stop: Option<nat>,
    step: ChainStep,
    req: Request,
    res: Response,
    req_after: Request,
    res_after: Response,
) -> bool {
    match step {
        ChainStep::Before(i) => mws[i as int].admits(req, res, req_after, res_after, stop != Some(i as nat)),
        ChainStep::Route => route_step(router, req, res, req_after, res_after),
        ChainStep::After(i) => mws[i as int].finishes(req, res, req_after, res_after),
    }
}

/// A run of the chain: each entry names its step and the request and
/// response it left, and each step holds of the state before it.
pub open spec fn chain_run<H: Handler, W, M: Middleware>(
    router: Router<H, W>,
    mws: Seq<M>,
    stop: Option<nat>,
    req: Request,
    res: Response,
    run: Seq<(ChainStep, Request, Response)>,
) -> bool {
    &&& stop matches Some(s) ==> s < mws.len()
    &&& run.len() == chain_len(mws.len(), stop)
    &&& forall|k: int|
        0 <= k < run.len() ==> (#[trigger] run[k]).0 == chain_step_at(mws.len(), stop, k) && step_holds(
            router,
            mws,
            stop,
            run[k].0,
            state_before(req, res, run, k).0,
            state_before(req, res, run, k).1,
            run[k].1,
            run[k].2,
        )
}

/// What `respond` gives for a request: some run of the chain from a fresh
/// response, whose last state is the request afterwards and, with the
/// connection headers added, the response.
pub open spec fn responded<H: Handler, W, M: Middleware>(
    router: Router<H, W>,
    mws: Seq<M>,
    req: Request,
    run: Seq<(ChainStep, Request, Response)>,
    req_after: Request,
    res: Response,
    keep: bool,
    keep_alive_secs: u64,
) -> bool {
    exists|stop: Option<nat>, res0: Response|
        #![trigger chain_run(router, mws, stop, req, res0, run)]
        is_fresh(res0) && chain_run(router, mws, stop, req, res0, run) && {
            let end = state_before(req, res0, run, run.len() as int);
            &&& req_after == end.0
            &&& res.status_code == end.1.status_code
            &&& res.body == end.1.body
            &&& res.set_cookies == end.1.set_cookies
            &&& res.sent == end.1.sent
            &&& res.headers@ == connection_headers(end.1.headers@, keep, keep_alive_secs)
        }
}

/// Runs a parsed request through the middleware and the router: the
/// `before` hooks in order until one declines, which ends the chain at
/// once. When none declined, the route's handler runs (or a 404 JSON error
/// is the answer when no route takes the path), then every `after` hook in
/// reverse order. Last come the connection headers; the second result says
/// whether the connection stays open, the third holds the run: each step
/// with the request and response it left.
pub fn respond<H: Handler, W, M: Middleware>(
    router: &Router<H, W>,
    middleware: &[M],
    req: &mut Request,
    keep_alive: bool,
    keep_alive_secs: u64,
) -> (r: (Response, bool, Ghost<Seq<(ChainStep, Request, Response)>>))
    ensures
        r.1 == keeps_alive(keep_alive, *final(req)),
        r.0.headers@.contains_key("Connection"@),
        r.0.headers@["Connection"@] == (if r.1 {
            "keep-alive"@
        } else {
            "close"@
        }),
        r.1 ==> r.0.headers@.contains_key("Keep-Alive"@) && r.0.headers@["Keep-Alive"@] == "timeout="@
            + crate::decimal::decimal(keep_alive_secs as nat),
        responded(*router, middleware@, *old(req), r.2@, *final(req), r.0, r.1, keep_alive_secs),
{
    let mut res = Response::new();
    let ghost req0 = *req;
    let ghost res0 = res;
    let n = middleware.len();
    let mut passed = true;
    let mut i: usize = 0;
    let ghost mut run: Seq<(ChainStep, Request, Response)> = Seq::empty();
    while i < n && passed
        invariant
            i <= n == middleware@.len(),
            run.len() == i,
            !passed ==> i >= 1,
            forall|k: int|
                0 <= k < i ==> (#[trigger] run[k]).0 == ChainStep::Before(k as usize) && middleware@[k].admits(
                    state_before(req0, res0, run, k).0,
                    state_before(req0, res0, run, k).1,
                    run[k].1,
                    run[k].2,
                    passed || k < i - 1,
                ),
            state_before(req0, res0, run, i as int) == (*req, res),
        decreases n - i,
    {
        let ghost pre = run;
        passed = middleware[i].before(req, &mut res);
        proof {
            run = run.push((ChainStep::Before(i), *req, res));
            assert forall|k: int| 0 <= k < i + 1 implies (#[trigger] run[k]).0 == ChainStep::Before(k as usize)
                && middleware@[k].admits(
                state_before(req0, res0, run, k).0,
                state_before(req0, res0, run, k).1,
                run[k].1,
                run[k].2,
                passed || k < i,
            ) by {
                if k < i {
                    assert(run[k] == pre[k]);
                    assert(state_before(req0, res0, run, k) == state_before(req0, res0, pre, k));
                    assert(pre[k].0 == ChainStep::Before(k as usize));
                }
            }
        }
        i = i + 1;
    }
    let ghost stop: Option<nat> = if passed {
        None
    } else {
        Some((i - 1) as nat)
    };
    if passed {
        let ghost rq = *req;
        let ghost rs = res;
        let found = router.handle(req, &mut res);
        if !found {
            not_found(req, &mut res);
        }
        proof {
            run = run.push((ChainStep::Route, *req, res));
        }
        let mut j: usize = n;
        while j > 0
            invariant
                j <= n == middleware@.len(),
                passed,
                run.len() == 2 * n + 1 - j,
                forall|k: int|
                    0 <= k < n ==> (#[trigger] run[k]).0 == ChainStep::Before(k as usize) && middleware@[k].admits(
                        state_before(req0, res0, run, k).0,
                        state_before(req0, res0, run, k).1,
                        run[k].1,
                        run[k].2,
                        true,
                    ),
                run[n as int].0 == ChainStep::Route && route_step(
                    *router,
                    state_before(req0, res0, run, n as int).0,
                    state_before(req0, res0, run, n as int).1,
                    run[n as int].1,
                    run[n as int].2,
                ),
                forall|k: int|
                    n < k < run.len() ==> (#[trigger] run[k]).0 == ChainStep::After((2 * n - k) as usize)
                        && middleware@[2 * n - k].finishes(
                        state_before(req0, res0, run, k).0,
                        state_before(req0, res0, run, k).1,
                        run[k].1,
                        run[k].2,
                    ),
                state_before(req0, res0, run, run.len() as int) == (*req, res),
            decreases j,
        {
            let ghost pre = run;
            j = j - 1;
            middleware[j].after(req, &mut res);
            proof {
                run = run.push((ChainStep::After(j), *req, res));
                assert(run[n as int] == pre[n as int]);
                assert(state_before(req0, res0, run, n as int) == state_before(req0, res0, pre, n as int));
                assert forall|k: int| 0 <= k < n implies (#[trigger] run[k]).0 == ChainStep::Before(k as usize)
                    && middleware@[k].admits(
                    state_before(req0, res0, run, k).0,
                    state_before(req0, res0, run, k).1,
                    run[k].1,
                    run[k].2,
                    true,
                ) by {
                    assert(run[k] == pre[k]);
                    assert(state_before(req0, res0, run, k) == state_before(req0, res0, pre, k));
                }
                assert forall|k: int| n < k < run.len() implies (#[trigger] run[k]).0 == ChainStep::After(
                    (2 * n - k) as usize,
                ) && middleware@[2 * n - k].finishes(
                    state_before(req0, res0, run, k).0,
                    state_before(req0, res0, run, k).1,
                    run[k].1,
                    run[k].2,
                ) by {
                    if k < run.len() - 1 {
                        assert(run[k] == pre[k]);
                        assert(state_before(req0, res0, run, k) == state_before(req0, res0, pre, k));
                    }
                }
            }
        }
        proof {
            assert forall|k: int| 0 <= k < run.len() implies (#[trigger] run[k]).0 == chain_step_at(n as nat, stop, k)
                && step_holds(
                *router,
                middleware@,
                stop,
                run[k].0,
                state_before(req0, res0, run, k).0,
                state_before(req0, res0, run, k).1,
                run[k].1,
                run[k].2,
            ) by {
                if k < n {
                } else if k == n {
                } else {
                }
            }
            assert(chain_run(*router, middleware@, stop, req0, res0, run));
        }
    } else {
        proof {
            assert forall|k: int| 0 <= k < run.len() implies (#[trigger] run[k]).0 == chain_step_at(n as nat, stop, k)
                && step_holds(
                *router,
                middleware@,
                stop,
                run[k].0,
                state_before(req0, res0, run, k).0,
                state_before(req0, res0, run, k).1,
                run[k].1,
                run[k].2,
            ) by {
            }
            assert(chain_run(*router, middleware@, stop, req0, res0, run));
        }
    }
    let ghost end_res = res;
    let keep = should_keep_alive(keep_alive, req);
    set_connection_headers(&mut res, keep, keep_alive_secs);
    proof {
        reveal_strlit("Connection");
        reveal_strlit("Keep-Alive");
        assert("Connection"@[0] != "Keep-Alive"@[0]);
        assert(state_before(req0, res0, run, run.len() as int) == (*req, end_res));
        assert(is_fresh(res0));
    }
    (res, keep, Ghost(run))
}

/// Whether a request asks for a WebSocket upgrade with a client key.
pub open spec fn upgrade_key(req: Request) -> Option<Seq<char>> {
    if (req.header_value("upgrade"@) matches Some(u) && eq_ignore_ascii_case(u, "websocket"@)) && (req.header_value(
        "connection"@,
    ) matches Some(c) && contains_seq(lowercase(c), "upgrade"@)) {
        req.header_value("sec-websocket-key"@)
    } else {
        None
    }
}

/// The WebSocket route an upgrade request goes to: its handler, its path
/// parameters and the client key; `None` when the request is no upgrade
/// with a key, or no WebSocket route takes its path.
pub fn websocket_target<'a, H, W>(router: &'a Router<H, W>, req: &Request) -> (r: Option<(&'a W, StrMap, String)>)
    ensures
        match r {
            Some((h, params, key)) => {
                &&& upgrade_key(*req) == Some(key@)
                &&& first_ws_match(router.ws_table(), req.path@) matches Some(i) && *h == router.ws_handler_at(i)
                    && route_match(router.ws_table()[i], req.path@) == Some(params@)
            },
            None => upgrade_key(*req) is None || first_ws_match(router.ws_table(), req.path@) is None,
        },
{
    if !req.is_websocket_upgrade() {
        return None;
    }
    let key = match req.header("sec-websocket-key") {
        Some(k) => k.to_owned(),
        None => {
            return None;
        },
    };
    match router.match_ws_route(req.path.as_str()) {
        Some((h, params)) => Some((h, params, key)),
        None => None,
    }
}

/// Whether a request asks for a WebSocket upgrade: `Upgrade: websocket`
/// and a `Connection` header naming `upgrade`.
pub open spec fn asks_upgrade(req: Request) -> bool {
    (req.header_value("upgrade"@) matches Some(u) && eq_ignore_ascii_case(u, "websocket"@)) && (req.header_value(
        "connection"@,
    ) matches Some(c) && contains_seq(lowercase(c), "upgrade"@))
}

/// A response `respond` can give for a request, with whether the
/// connection stays open.
pub open spec fn replied<H: Handler, W, M: Middleware>(
    router: Router<H, W>,
    mws: Seq<M>,
    req: Request,
    res: Response,
    keep: bool,
    keep_alive: bool,
    keep_alive_secs: u64,
) -> bool {
    exists|run: Seq<(ChainStep, Request, Response)>, req_after: Request|
        #[trigger] responded(router, mws, req, run, req_after, res, keep, keep_alive_secs) && keep == keeps_alive(
            keep_alive,
            req_after,
        )
}

/// What the server does next with one request read off a connection.
pub enum Action<'a, W> {
    /// Write this response, then close the connection.
    Close(Response),
    /// Write these handshake bytes, then hand the connection to this
    /// WebSocket handler.
    Upgrade(&'a W, Vec<u8>),
    /// Write this response; the connection stays open when the flag is set.
    Reply(Response, bool),
}

/// Decides what to do with one request read off a connection, given what
/// parsing it gave and the peer's address and the shared state it gets. A
/// request that did not parse is answered with 400 and the connection
/// closes. An upgrade request goes to the WebSocket route that takes its
/// path, with the handshake for its key; without a key or such a route it
/// is answered with 404 and the connection closes. Any other request runs
/// through the middleware and the router (see [`respond`]).
pub fn next_action<'a, H: Handler, W, M: Middleware>(
    router: &'a Router<H, W>,
    middleware: &[M],
    parsed: Result<Request, Error>,
    remote_addr: Option<PeerAddr>,
    state: Option<SharedState>,
    keep_alive: bool,
    keep_alive_secs: u64,
) -> (a: Action<'a, W>)
    ensures
        match parsed {
            Err(e) => a matches Action::Close(res) && bad_request_answer(e, res),
            Ok(req) => {
                let req1 = Request { remote_addr: remote_addr, state: state, ..req };
                if asks_upgrade(req1) {
                    if upgrade_key(req1) is Some && first_ws_match(router.ws_table(), req1.path@) is Some {
                        a matches Action::Upgrade(h, hs) && *h == router.ws_handler_at(
                            first_ws_match(router.ws_table(), req1.path@)->0,
                        ) && hs@ == encode_utf8(crate::websocket::handshake_text(upgrade_key(req1)->0))
                    } else {
                        a matches Action::Close(res) && ws_not_found_answer(res)
                    }
                } else {
                    a matches Action::Reply(res, keep) && replied(
                        *router,
                        middleware@,
                        req1,
                        res,
                        keep,
                        keep_alive,
                        keep_alive_secs,
                    )
                }
            },
        },
{
    match parsed {
        Err(e) => {
            return Action::Close(bad_request(&e));
        },
        Ok(r) => {
            let mut req = r;
            req.remote_addr = remote_addr;
            req.state = state;
            if req.is_websocket_upgrade() {
                match websocket_target(router, &req) {
                    Some((h, _params, key)) => {
                        let hs = crate::websocket::handshake_response(key.as_str());
                        return Action::Upgrade(h, hs);
                    },
                    None => {
                        return Action::Close(ws_not_found());
                    },
                }
            }
            let (res, keep, run) = respond(router, middleware, &mut req, keep_alive, keep_alive_secs);
            assert(responded(
                *router,
                middleware@,
                Request { remote_addr: remote_addr, state: state, ..r },
                run@,
                req,
                res,
                keep,
                keep_alive_secs,
            ));
            assert(replied(
                *router,
                middleware@,
                Request { remote_addr: remote_addr, state: state, ..r },
                res,
                keep,
                keep_alive,
                keep_alive_secs,
            ));
            return Action::Reply(res, keep);
        },
    }
}

} // verus!

verus! {

/// A blank line found in some bytes is still the first one after more
/// bytes arrive.
pub proof fn lemma_blank_line_append(b: Seq<u8>, d: Seq<u8>, i: int)
    requires
        blank_line_from(b, i) is Some,
    ensures
        blank_line_from(b + d, i) == blank_line_from(b, i),
    decreases b.len() - i,
{
    let bd = b + d;
    assert(0 <= i && i + 4 <= b.len());
    assert(bd[i] == b[i] && bd[i + 1] == b[i + 1] && bd[i + 2] == b[i + 2] && bd[i + 3] == b[i + 3]);
    if !blank_line_at(b, i) {
        lemma_blank_line_append(b, d, i + 1);
    }
}

/// What a reader has recorded agrees with its bytes: the end of the headers
/// once found, and the body length they declare.
pub open spec fn reader_consistent(r: ReaderView) -> bool {
    match r.header_end {
        Some(e) => e >= 4 && header_end_of(r.buffer) == Some(e - 4) && r.content_length
            == head_content_length(r.buffer.subrange(0, e - 4)),
        None => header_end_of(r.buffer) is None,
    }
}

/// A new reader is consistent.
pub proof fn law_new_reader_consistent(max_size: usize)
    ensures
        reader_consistent(ReaderView { buffer: Seq::empty(), max_size, header_end: None, content_length: 0 }),
{
}

/// Taking in bytes keeps a reader consistent (unless the request became too
/// large, after which the reader is dropped).
pub proof fn law_reader_stays_consistent(r: ReaderView, data: Seq<u8>)
    requires
        reader_consistent(r),
        reader_after(r, data).1 != ReadStep::TooLarge,
    ensures
        reader_consistent(reader_after(r, data).0),
{
    let b = r.buffer + data;
    match r.header_end {
        Some(e) => {
            lemma_blank_line_append(r.buffer, data, 0);
            lemma_blank_line_within(r.buffer, 0, e - 4);
            assert(b.subrange(0, e - 4) =~= r.buffer.subrange(0, e - 4));
        },
        None => {
            match header_end_of(b) {
                Some(pos) => {
                    lemma_blank_line_within(b, 0, pos);
                },
                None => {},
            }
        },
    }
}

/// When a consistent reader says the request is whole, its bytes hold the
/// headers up to the first blank line and at least as many body bytes as
/// they declare.
pub proof fn law_done_request_is_whole(r: ReaderView, data: Seq<u8>)
    requires
        reader_consistent(r),
        reader_after(r, data).1 == ReadStep::Done,
    ensures
        ({
            let b = reader_after(r, data).0.buffer;
            header_end_of(b) matches Some(p) && b.len() >= p + 4 + head_content_length(b.subrange(0, p))
        }),
{
    law_reader_stays_consistent(r, data);
}

} // verus!
