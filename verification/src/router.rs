//! Route patterns, route tables and route matching.
//!
//! A pattern such as `/users/:id/files/*path` is compiled into a regular
//! expression (`:name` matches one segment, `*name` the rest of the path,
//! other segments literally). Routes are tried in registration order; the
//! first route of the request's method whose expression matches wins.

use vstd::prelude::*;

use crate::request::{Method, Request};
use crate::response::Response;
use crate::strmap::StrMap;
use crate::text::{chars_of, copy_range, push_all, split, split_seq, string_of, views};

verus! {

/// Characters that `regex::escape` protects with a backslash.
pub open spec fn is_meta(c: char) -> bool {
    c == '\\' || c == '.' || c == '+' || c == '*' || c == '?' || c == '(' || c == ')' || c == '|'
        || c == '[' || c == ']' || c == '{' || c == '}' || c == '^' || c == '$' || c == '#' || c
        == '&' || c == '-' || c == '~'
}

/// `regex::escape`: every meta character preceded by a backslash.
pub open spec fn regex_escaped(s: Seq<char>) -> Seq<char>
    decreases s.len(),
{
    if s.len() == 0 {
        Seq::empty()
    } else {
        regex_escaped(s.drop_last()) + (if is_meta(s.last()) {
            seq!['\\', s.last()]
        } else {
            seq![s.last()]
        })
    }
}

/// Whether `c` is a regex meta character.
fn is_meta_char(c: char) -> (b: bool)
    ensures
        b == is_meta(c),
{
    c == '\\' || c == '.' || c == '+' || c == '*' || c == '?' || c == '(' || c == ')' || c == '|'
        || c == '[' || c == ']' || c == '{' || c == '}' || c == '^' || c == '$' || c == '#' || c
        == '&' || c == '-' || c == '~'
}

/// The text with a backslash before every regex meta character
/// (`\ . + * ? ( ) | [ ] { } ^ $ # & - ~`), as `regex::escape` writes it.
fn regex_escape(s: &str) -> (r: String)
    ensures
        r@ == regex_escaped(s@),
{
    let cs = chars_of(s);
    let mut out: Vec<char> = Vec::new();
    let mut i: usize = 0;
    while i < cs.len()
        invariant
            i <= cs@.len(),
            cs@ == s@,
            out@ == regex_escaped(s@.subrange(0, i as int)),
        decreases cs@.len() - i,
    {
        let c = cs[i];
        assert(s@.subrange(0, i + 1).drop_last() =~= s@.subrange(0, i as int));
        if is_meta_char(c) {
            out.push('\\');
        }
        out.push(c);
        proof {
            let t = s@.subrange(0, i + 1);
            assert(t.last() == c);
            if is_meta(c) {
                assert(out@ =~= regex_escaped(t.drop_last()) + seq!['\\', c]);
            } else {
                assert(out@ =~= regex_escaped(t.drop_last()) + seq![c]);
            }
        }
        i = i + 1;
    }
    assert(s@.subrange(0, cs@.len() as int) =~= s@);
    string_of(out.as_slice())
}

/// What matching the regular expression `re` against `text` gives: `None`
/// when it does not match (or `re` is not a valid expression), else the
/// text of each capture group (group 0 is the whole match), `None` for a
/// group that did not participate.
pub uninterp spec fn regex_captures(re: Seq<char>, text: Seq<char>) -> Option<Seq<Option<Seq<char>>>>;

pub open spec fn opt_strings(v: Seq<Option<String>>) -> Seq<Option<Seq<char>>> {
    v.map_values(|o: Option<String>| match o {
        Some(s) => Some(s@),
        None => None,
    })
}

/// `Regex::new(re)` then `captures(text)`: the capture groups of the first
/// match of `re` in `text`.
#[verifier::external_body]
fn captures(re: &str, text: &str) -> (r: Option<Vec<Option<String>>>)
    ensures
        match r {
            Some(c) => regex_captures(re@, text@) == Some(opt_strings(c@)),
            None => regex_captures(re@, text@) is None,
        },
{
    let re = regex::Regex::new(re).ok()?;
    let caps = re.captures(text)?;
    Some(caps.iter().map(|m| m.map(|m| m.as_str().to_string())).collect())
}

/// One segment of a pattern compiled: the regex text it contributes and the
/// parameter it names, if any. `:name` takes one non-empty segment;
/// `*name` takes everything remaining, which may be empty.
pub open spec fn segment_regex(seg: Seq<char>) -> (Seq<char>, Option<Seq<char>>) {
    if seg.len() > 0 && seg[0] == ':' {
        ("/([^/]+)"@, Some(seg.drop_first()))
    } else if seg.len() > 0 && seg[0] == '*' {
        ("/(.*)"@, Some(seg.drop_first()))
    } else {
        ("/"@ + regex_escaped(seg), None)
    }
}

/// The regex text of a list of segments (empty segments are skipped).
pub open spec fn segments_regex(segs: Seq<Seq<char>>) -> Seq<char>
    decreases segs.len(),
{
    if segs.len() == 0 {
        Seq::empty()
    } else {
        segments_regex(segs.drop_last()) + (if segs.last().len() == 0 {
            Seq::empty()
        } else {
            segment_regex(segs.last()).0
        })
    }
}

/// The parameter names of a list of segments, in order.
pub open spec fn segments_params(segs: Seq<Seq<char>>) -> Seq<Seq<char>>
    decreases segs.len(),
{
    if segs.len() == 0 {
        Seq::empty()
    } else {
        segments_params(segs.drop_last()) + (if segs.last().len() > 0 && segment_regex(
            segs.last(),
        ).1 is Some {
            seq![segment_regex(segs.last()).1.unwrap()]
        } else {
            Seq::empty()
        })
    }
}

/// The regular expression a route pattern compiles to.
pub open spec fn pattern_regex(p: Seq<char>) -> Seq<char> {
    if p == "/"@ {
        "^/$"@
    } else {
        "^"@ + segments_regex(split_seq(p, seq!['/'])) + "$"@
    }
}

/// The parameter names of a route pattern, in order.
pub open spec fn pattern_params(p: Seq<char>) -> Seq<Seq<char>> {
    if p == "/"@ {
        Seq::empty()
    } else {
        segments_params(split_seq(p, seq!['/']))
    }
}

/// Compiles a route pattern into a regular expression and its parameter
/// names.
pub fn compile_pattern(pattern: &str) -> (r: (String, Vec<String>))
    ensures
        r.0@ == pattern_regex(pattern@),
        crate::strmap::strings_view(r.1@) == pattern_params(pattern@),
{
    let mut names: Vec<String> = Vec::new();
    if crate::text::str_eq(pattern, "/") {
        assert(crate::strmap::strings_view(names@) =~= Seq::<Seq<char>>::empty());
        return ("^/$".to_owned(), names);
    }
    let mut out = chars_of("^");
    let p = chars_of(pattern);
    let slash = vec!['/'];
    assert(slash@ =~= seq!['/']);
    let segs = split(p.as_slice(), slash.as_slice());
    let ghost sv = views(segs@);
    let ghost start = out@;
    let mut i: usize = 0;
    assert(crate::strmap::strings_view(names@) =~= Seq::<Seq<char>>::empty());
    while i < segs.len()
        invariant
            i <= segs@.len(),
            sv == views(segs@),
            out@ == start + segments_regex(sv.subrange(0, i as int)),
            crate::strmap::strings_view(names@) == segments_params(sv.subrange(0, i as int)),
        decreases segs@.len() - i,
    {
        let seg = &segs[i];
        assert(sv.subrange(0, i + 1).drop_last() =~= sv.subrange(0, i as int));
        assert(sv.subrange(0, i + 1).last() == seg@);
        if seg.len() > 0 {
            let ghost before = out@;
            let ghost nbefore = crate::strmap::strings_view(names@);
            if seg[0] == ':' {
                let name = copy_range(seg.as_slice(), 1, seg.len());
                assert(name@ =~= seg@.drop_first());
                names.push(string_of(name.as_slice()));
                let piece = chars_of("/([^/]+)");
                push_all(&mut out, piece.as_slice());
            } else if seg[0] == '*' {
                let name = copy_range(seg.as_slice(), 1, seg.len());
                assert(name@ =~= seg@.drop_first());
                names.push(string_of(name.as_slice()));
                let piece = chars_of("/(.*)");
                push_all(&mut out, piece.as_slice());
            } else {
                let s = string_of(seg.as_slice());
                let esc = regex_escape(s.as_str());
                let sl = chars_of("/");
                push_all(&mut out, sl.as_slice());
                let e = chars_of(esc.as_str());
                push_all(&mut out, e.as_slice());
            }
            assert(out@ =~= before + segment_regex(seg@).0);
            assert(crate::strmap::strings_view(names@) =~= nbefore + (if segment_regex(seg@).1 is Some {
                seq![segment_regex(seg@).1.unwrap()]
            } else {
                Seq::<Seq<char>>::empty()
            }));
        } else {
            assert(out@ =~= out@ + Seq::<char>::empty());
            assert(crate::strmap::strings_view(names@) =~= crate::strmap::strings_view(names@) + Seq::<Seq<char>>::empty());
        }
        i = i + 1;
    }
    assert(sv.subrange(0, segs@.len() as int) =~= sv);
    let d = chars_of("$");
    push_all(&mut out, d.as_slice());
    (string_of(out.as_slice()), names)
}

/// The path parameters a match gives: the `k`-th parameter name gets
/// capture group `k + 1` when that group took part in the match.
pub open spec fn params_from(names: Seq<Seq<char>>, caps: Seq<Option<Seq<char>>>) -> Map<Seq<char>, Seq<char>>
    decreases names.len(),
{
    if names.len() == 0 {
        Map::empty()
    } else {
        let k = names.len() - 1;
        let m = params_from(names.drop_last(), caps);
        if k + 1 < caps.len() && caps[k + 1] is Some {
            m.insert(names.last(), caps[k + 1].unwrap())
        } else {
            m
        }
    }
}

/// The path parameters of a route pattern against a path, when it matches.
pub open spec fn route_match(pattern: Seq<char>, path: Seq<char>) -> Option<Map<Seq<char>, Seq<char>>> {
    match regex_captures(pattern_regex(pattern), path) {
        Some(caps) => Some(params_from(pattern_params(pattern), caps)),
        None => None,
    }
}

/// A WebSocket route: a route whose handler takes the upgraded connection
/// (its method is unused).
pub type WsRoute<W> = Route<W>;

/// A route: a method, a pattern, and what handles it.
pub struct Route<H> {
    /// HTTP method of this route.
    pub method: Method,
    /// The pattern as registered, e.g. `/users/:id`.
    pub pattern: String,
    regex: String,
    param_names: Vec<String>,
    handler: H,
}

impl<H> Route<H> {
    #[verifier::type_invariant]
    closed spec fn compiled(&self) -> bool {
        &&& self.regex@ == pattern_regex(self.pattern@)
        &&& crate::strmap::strings_view(self.param_names@) == pattern_params(self.pattern@)
    }

    pub closed spec fn handler_of(&self) -> H {
        self.handler
    }

    /// The method of this route.
    pub closed spec fn method_of(&self) -> Method {
        self.method
    }

    /// The pattern of this route.
    pub closed spec fn pattern_of(&self) -> Seq<char> {
        self.pattern@
    }

    /// A route for `pattern` (compiled once here).
    pub fn new(method: Method, pattern: &str, handler: H) -> (r: Self)
        ensures
            r.method_of() == method,
            r.pattern_of() == pattern@,
            r.handler_of() == handler,
    {
        let (regex, param_names) = compile_pattern(pattern);
        Route { method, pattern: pattern.to_owned(), regex, param_names, handler }
    }

    /// The path parameters when `path` matches this route.
    pub fn match_path(&self, path: &str) -> (r: Option<StrMap>)
        ensures
            match r {
                Some(m) => route_match(self.pattern_of(), path@) == Some(m@),
                None => route_match(self.pattern_of(), path@) is None,
            },
    {
        proof {
            use_type_invariant(self);
        }
        match captures(self.regex.as_str(), path) {
            Some(caps) => Some(path_params(&self.param_names, &caps)),
            None => None,
        }
    }
}

/// The path parameters that the capture groups of a match give: the
/// `k`-th name gets group `k + 1` when that group took part.
pub fn path_params(names: &Vec<String>, caps: &Vec<Option<String>>) -> (m: StrMap)
    ensures
        m@ == params_from(crate::strmap::strings_view(names@), opt_strings(caps@)),
{
    let ghost cv = opt_strings(caps@);
    let ghost nv = crate::strmap::strings_view(names@);
    let mut params = StrMap::new();
    let mut i: usize = 0;
    while i < names.len()
        invariant
            i <= names@.len(),
            cv == opt_strings(caps@),
            nv == crate::strmap::strings_view(names@),
            params@ == params_from(nv.subrange(0, i as int), cv),
        decreases names@.len() - i,
    {
        assert(nv.subrange(0, i + 1).drop_last() =~= nv.subrange(0, i as int));
        if i + 1 < caps.len() {
            match &caps[i + 1] {
                Some(v) => {
                    params.insert(names[i].clone(), v.clone());
                },
                None => {},
            }
        }
        i = i + 1;
    }
    assert(nv.subrange(0, names@.len() as int) =~= nv);
    params
}

/// The index of the route that handles `method` and `path`: the first one
/// of that method whose pattern matches.
pub open spec fn first_match(routes: Seq<(Method, Seq<char>)>, method: Method, path: Seq<char>) -> Option<int> {
    if exists|i: int| 0 <= i < routes.len() && routes[i].0 == method && route_match(routes[i].1, path) is Some {
        Some(choose|i: int| 0 <= i < routes.len() && routes[i].0 == method && route_match(routes[i].1, path) is Some
            && forall|j: int| 0 <= j < i ==> !(routes[j].0 == method && route_match(routes[j].1, path) is Some))
    } else {
        None
    }
}

/// The index of the WebSocket route that handles `path`: the first whose
/// pattern matches.
pub open spec fn first_ws_match(patterns: Seq<Seq<char>>, path: Seq<char>) -> Option<int> {
    if exists|i: int| 0 <= i < patterns.len() && route_match(patterns[i], path) is Some {
        Some(choose|i: int| 0 <= i < patterns.len() && route_match(patterns[i], path) is Some
            && forall|j: int| 0 <= j < i ==> route_match(patterns[j], path) is None)
    } else {
        None
    }
}

/// What a router does with a request that has no handler to call.
pub enum Dispatch<'a, H> {
    /// The route's handler should be called (the path parameters are set).
    Call(&'a H),
    /// The path matches a route of another method: answered with 405.
    Answered,
    /// No route matches the path.
    Unmatched,
}

/// The HTTP router. Routes are matched in registration order; the first
/// matching route wins.
pub struct Router<H, W = H> {
    routes: Vec<Route<H>>,
    ws_routes: Vec<Route<W>>,
}

pub open spec fn route_views<H>(r: Seq<Route<H>>) -> Seq<(Method, Seq<char>)> {
    r.map_values(|x: Route<H>| (x.method_of(), x.pattern_of()))
}

impl<H, W> Router<H, W> {
    /// The routes, as method and pattern, in order.
    pub closed spec fn table(&self) -> Seq<(Method, Seq<char>)> {
        route_views(self.routes@)
    }

    /// The WebSocket route patterns, in order.
    pub closed spec fn ws_table(&self) -> Seq<Seq<char>> {
        self.ws_routes@.map_values(|x: Route<W>| x.pattern_of())
    }

    /// The handler of route `i`.
    pub closed spec fn handler_at(&self, i: int) -> H {
        self.routes@[i].handler_of()
    }

    /// The handler of WebSocket route `i`.
    pub closed spec fn ws_handler_at(&self, i: int) -> W {
        self.ws_routes@[i].handler_of()
    }

    /// An empty router.
    pub fn new() -> (r: Self)
        ensures
            r.table() == Seq::<(Method, Seq<char>)>::empty(),
            r.ws_table() == Seq::<Seq<char>>::empty(),
    {
        let r = Router { routes: Vec::new(), ws_routes: Vec::new() };
        assert(r.table() =~= Seq::<(Method, Seq<char>)>::empty());
        assert(r.ws_table() =~= Seq::<Seq<char>>::empty());
        r
    }

    /// Adds a route at the end of the table.
    pub fn add(&mut self, method: Method, pattern: &str, handler: H)
        ensures
            final(self).table() == old(self).table().push((method, pattern@)),
            final(self).ws_table() == old(self).ws_table(),
            final(self).handler_at(old(self).table().len() as int) == handler,
            forall|i: int| 0 <= i < old(self).table().len() ==> final(self).handler_at(i) == old(self).handler_at(i),
            forall|i: int| 0 <= i < old(self).ws_table().len() ==> final(self).ws_handler_at(i) == old(self).ws_handler_at(i),
    {
        let r = Route::new(method, pattern, handler);
        self.routes.push(r);
        assert(self.table() =~= old(self).table().push((method, pattern@)));
    }

    /// Adds a WebSocket route.
    pub fn add_ws(&mut self, pattern: &str, handler: W)
        ensures
            final(self).table() == old(self).table(),
            final(self).ws_table() == old(self).ws_table().push(pattern@),
            final(self).ws_handler_at(old(self).ws_table().len() as int) == handler,
            forall|i: int| 0 <= i < old(self).ws_table().len() ==> final(self).ws_handler_at(i) == old(self).ws_handler_at(i),
            forall|i: int| 0 <= i < old(self).table().len() ==> final(self).handler_at(i) == old(self).handler_at(i),
    {
        let r = Route::new(Method::GET, pattern, handler);
        self.ws_routes.push(r);
        assert(self.ws_table() =~= old(self).ws_table().push(pattern@));
    }

    /// Adds every route of a group, with the group's prefix before its
    /// pattern, in the group's order.
    pub fn add_group<M>(&mut self, group: RouteGroup<H, M>)
        ensures
            final(self).table() == old(self).table() + group.entries().map_values(
                |e: (Method, Seq<char>)| (e.0, group.prefix@ + e.1),
            ),
            final(self).ws_table() == old(self).ws_table(),
    {
        let RouteGroup { prefix, routes, middleware: _ } = group;
        let ghost ge = crate::router::group_entries(routes@);
        let ghost pv = prefix@;
        let mut rest = routes;
        let mut rev: Vec<(Method, String, H)> = Vec::new();
        while rest.len() > 0
            invariant
                group_entries(rest@) + group_entries(rev@).reverse() == ge,
            decreases rest@.len(),
        {
            let ghost b1 = group_entries(rest@);
            let ghost b2 = group_entries(rev@);
            let x = rest.pop().unwrap();
            rev.push(x);
            assert(group_entries(rest@) =~= b1.drop_last());
            assert(group_entries(rev@) =~= b2.push(b1.last()));
            assert(group_entries(rest@) + group_entries(rev@).reverse() =~= ge);
        }
        assert(group_entries(rev@).reverse() =~= ge);
        let ghost old_t = self.table();
        let n = rev.len();
        let mut i: usize = 0;
        while i < n
            invariant
                i <= n == ge.len(),
                group_entries(rev@).reverse() == ge.subrange(i as int, n as int),
                pv == prefix@,
                self.table() == old_t + ge.subrange(0, i as int).map_values(|e: (Method, Seq<char>)| (e.0, pv + e.1)),
                self.ws_table() == old(self).ws_table(),
            decreases n - i,
        {
            let ghost br = group_entries(rev@);
            assert(br.len() > 0) by {
                assert(ge.subrange(i as int, n as int).len() > 0);
            }
            let (method, pattern, handler) = rev.pop().unwrap();
            assert(group_entries(rev@) =~= br.drop_last());
            assert(br.last() == ge[i as int]) by {
                assert(br.reverse()[0] == br.last());
                assert(ge.subrange(i as int, n as int)[0] == ge[i as int]);
            }
            assert(group_entries(rev@).reverse() =~= ge.subrange(i + 1, n as int)) by {
                assert forall|t: int| 0 <= t < n - i - 1 implies group_entries(rev@).reverse()[t]
                    == ge.subrange(i + 1, n as int)[t] by {
                    assert(br.reverse()[t + 1] == ge.subrange(i as int, n as int)[t + 1]);
                }
            }
            let mut full = chars_of(prefix.as_str());
            let pc = chars_of(pattern.as_str());
            push_all(&mut full, pc.as_slice());
            let full_s = string_of(full.as_slice());
            let ghost before = self.table();
            self.add(method, full_s.as_str(), handler);
            assert(ge.subrange(0, i + 1) =~= ge.subrange(0, i as int).push(ge[i as int]));
            assert(self.table() =~= old_t + ge.subrange(0, i + 1).map_values(|e: (Method, Seq<char>)| (e.0, pv + e.1)));
            i = i + 1;
        }
        assert(ge.subrange(0, n as int) =~= ge);
    }

    /// The first route of `method` that matches `path`, with its path
    /// parameters.
    pub fn match_route(&self, method: &Method, path: &str) -> (r: Option<(&H, StrMap)>)
        ensures
            match r {
                Some((h, params)) => first_match(self.table(), *method, path@) matches Some(i)
                    && *h == self.handler_at(i) && route_match(self.table()[i].1, path@) == Some(params@),
                None => first_match(self.table(), *method, path@) is None,
            },
    {
        let ghost t = self.table();
        let mut i: usize = 0;
        while i < self.routes.len()
            invariant
                i <= self.routes@.len(),
                t == self.table(),
                forall|j: int| 0 <= j < i ==> !(t[j].0 == *method && route_match(t[j].1, path@) is Some),
            decreases self.routes@.len() - i,
        {
            let route = &self.routes[i];
            if route.method == *method {
                match route.match_path(path) {
                    Some(params) => {
                        proof {
                            lemma_first_match(t, *method, path@, i as int);
                        }
                        return Some((&route.handler, params));
                    },
                    None => {},
                }
            }
            i = i + 1;
        }
        proof {
            assert(!exists|j: int| 0 <= j < t.len() && t[j].0 == *method && route_match(t[j].1, path@) is Some);
        }
        None
    }

    /// The first WebSocket route that matches `path`, with its path
    /// parameters.
    pub fn match_ws_route(&self, path: &str) -> (r: Option<(&W, StrMap)>)
        ensures
            match r {
                Some((h, params)) => first_ws_match(self.ws_table(), path@) matches Some(i)
                    && *h == self.ws_handler_at(i) && route_match(self.ws_table()[i], path@) == Some(params@),
                None => first_ws_match(self.ws_table(), path@) is None,
            },
    {
        let ghost t = self.ws_table();
        let mut i: usize = 0;
        while i < self.ws_routes.len()
            invariant
                i <= self.ws_routes@.len(),
                t == self.ws_table(),
                forall|j: int| 0 <= j < i ==> route_match(t[j], path@) is None,
            decreases self.ws_routes@.len() - i,
        {
            let route = &self.ws_routes[i];
            match route.match_path(path) {
                Some(params) => {
                    proof {
                        lemma_first_ws_match(t, path@, i as int);
                    }
                    return Some((&route.handler, params));
                },
                None => {},
            }
            i = i + 1;
        }
        None
    }

    /// Whether any route (of any method) matches `path`.
    pub fn path_exists(&self, path: &str) -> (b: bool)
        ensures
            b == exists|i: int| 0 <= i < self.table().len() && route_match(self.table()[i].1, path@) is Some,
    {
        let ghost t = self.table();
        let mut i: usize = 0;
        while i < self.routes.len()
            invariant
                i <= self.routes@.len(),
                t == self.table(),
                forall|j: int| 0 <= j < i ==> route_match(t[j].1, path@) is None,
            decreases self.routes@.len() - i,
        {
            match self.routes[i].match_path(path) {
                Some(_) => {
                    assert(route_match(t[i as int].1, path@) is Some);
                    return true;
                },
                None => {},
            }
            i = i + 1;
        }
        false
    }

    /// Routes a request: when a route matches, its path parameters are set
    /// and its handler is returned to be called; when only routes of other
    /// methods match, the response becomes 405 `Method Not Allowed`.
    pub fn dispatch<'a>(&'a self, req: &mut Request, res: &mut Response) -> (d: Dispatch<'a, H>)
        ensures
            match d {
                Dispatch::Call(h) => first_match(self.table(), old(req).method, old(req).path@) matches Some(i)
                    && *h == self.handler_at(i) && route_match(self.table()[i].1, old(req).path@) == Some(final(req).params@)
                    && *final(res) == *old(res),
                Dispatch::Answered => first_match(self.table(), old(req).method, old(req).path@) is None
                    && (exists|i: int| 0 <= i < self.table().len() && route_match(self.table()[i].1, old(req).path@) is Some)
                    && final(res).status_code == 405 && final(res).body@ == vstd::utf8::encode_utf8("Method Not Allowed"@)
                    && final(res).sent && *final(req) == *old(req),
                Dispatch::Unmatched => first_match(self.table(), old(req).method, old(req).path@) is None
                    && !(exists|i: int| 0 <= i < self.table().len() && route_match(self.table()[i].1, old(req).path@) is Some)
                    && *final(res) == *old(res) && *final(req) == *old(req),
            },
            *final(req) == (Request { params: final(req).params, ..*old(req) }),
    {
        let method = req.method;
        match self.match_route(&method, req.path.as_str()) {
            Some((h, params)) => {
                req.params = params;
                Dispatch::Call(h)
            },
            None => {
                if self.path_exists(req.path.as_str()) {
                    res.status(405).send("Method Not Allowed");
                    Dispatch::Answered
                } else {
                    Dispatch::Unmatched
                }
            },
        }
    }
}

/// The first matching index is the one `first_match` names.
pub proof fn lemma_first_match(t: Seq<(Method, Seq<char>)>, method: Method, path: Seq<char>, i: int)
    requires
        0 <= i < t.len(),
        t[i].0 == method && route_match(t[i].1, path) is Some,
        forall|j: int| 0 <= j < i ==> !(t[j].0 == method && route_match(t[j].1, path) is Some),
    ensures
        first_match(t, method, path) == Some(i),
{
    let w = choose|k: int| 0 <= k < t.len() && t[k].0 == method && route_match(t[k].1, path) is Some
        && forall|j: int| 0 <= j < k ==> !(t[j].0 == method && route_match(t[j].1, path) is Some);
    assert(0 <= i < t.len() && t[i].0 == method && route_match(t[i].1, path) is Some
        && forall|j: int| 0 <= j < i ==> !(t[j].0 == method && route_match(t[j].1, path) is Some));
    if w < i {
        assert(!(t[w].0 == method && route_match(t[w].1, path) is Some));
    }
    if i < w {
        assert(!(t[i].0 == method && route_match(t[i].1, path) is Some));
    }
}

/// A route of the method matches when `first_match` names one.
pub proof fn lemma_first_match_some(t: Seq<(Method, Seq<char>)>, method: Method, path: Seq<char>)
    requires
        first_match(t, method, path) is Some,
    ensures
        exists|i: int| 0 <= i < t.len() && route_match(t[i].1, path) is Some,
{
    let k = choose|k: int| 0 <= k < t.len() && t[k].0 == method && route_match(t[k].1, path) is Some;
    assert(0 <= k < t.len() && route_match(t[k].1, path) is Some);
}

/// The first matching WebSocket route is the one `first_ws_match` names.
pub proof fn lemma_first_ws_match(t: Seq<Seq<char>>, path: Seq<char>, i: int)
    requires
        0 <= i < t.len(),
        route_match(t[i], path) is Some,
        forall|j: int| 0 <= j < i ==> route_match(t[j], path) is None,
    ensures
        first_ws_match(t, path) == Some(i),
{
    let w = choose|k: int| 0 <= k < t.len() && route_match(t[k], path) is Some
        && forall|j: int| 0 <= j < k ==> route_match(t[j], path) is None;
    assert(0 <= i < t.len() && route_match(t[i], path) is Some
        && forall|j: int| 0 <= j < i ==> route_match(t[j], path) is None);
    if w < i {
        assert(route_match(t[w], path) is None);
    }
    if i < w {
        assert(route_match(t[i], path) is None);
    }
}

pub open spec fn group_entries<H>(r: Seq<(Method, String, H)>) -> Seq<(Method, Seq<char>)> {
    r.map_values(|x: (Method, String, H)| (x.0, x.1@))
}

/// A group of routes sharing a prefix (and middleware, kept with the
/// group).
pub struct RouteGroup<H, M = ()> {
    /// URL prefix for all routes in this group (no trailing `/`).
    pub prefix: String,
    /// Routes in this group: method, pattern, handler.
    pub routes: Vec<(Method, String, H)>,
    /// Middleware of this group.
    pub middleware: Vec<M>,
}

impl<H, M> RouteGroup<H, M> {
    /// The routes, as method and pattern, in order.
    pub open spec fn entries(&self) -> Seq<(Method, Seq<char>)> {
        group_entries(self.routes@)
    }

    /// A group with `prefix` (trailing `/`s removed) and no routes.
    pub fn new(prefix: &str) -> (g: Self)
        ensures
            g.prefix@ == crate::text::trim_end_char(prefix@, '/'),
            g.entries() == Seq::<(Method, Seq<char>)>::empty(),
            g.middleware@.len() == 0,
    {
        let p = chars_of(prefix);
        let mut j = p.len();
        assert(p@.subrange(0, j as int) =~= p@);
        while j > 0 && p[j - 1] == '/'
            invariant
                j <= p@.len(),
                crate::text::trim_end_char(p@, '/') == crate::text::trim_end_char(p@.subrange(0, j as int), '/'),
            decreases j,
        {
            assert(p@.subrange(0, j as int).drop_last() =~= p@.subrange(0, j - 1));
            j = j - 1;
        }
        let trimmed = copy_range(p.as_slice(), 0, j);
        let g = RouteGroup { prefix: string_of(trimmed.as_slice()), routes: Vec::new(), middleware: Vec::new() };
        assert(g.entries() =~= Seq::<(Method, Seq<char>)>::empty());
        g
    }

    fn push_route(&mut self, method: Method, path: &str, handler: H)
        ensures
            final(self).entries() == old(self).entries().push((method, path@)),
            final(self).prefix == old(self).prefix,
            final(self).middleware == old(self).middleware,
    {
        self.routes.push((method, path.to_owned(), handler));
        assert(self.entries() =~= old(self).entries().push((method, path@)));
    }

    /// Adds a GET route.
    pub fn get(&mut self, path: &str, handler: H)
        ensures
            final(self).entries() == old(self).entries().push((Method::GET, path@)),
            final(self).prefix == old(self).prefix,
    {
        self.push_route(Method::GET, path, handler);
    }

    /// Adds a POST route.
    pub fn post(&mut self, path: &str, handler: H)
        ensures
            final(self).entries() == old(self).entries().push((Method::POST, path@)),
            final(self).prefix == old(self).prefix,
    {
        self.push_route(Method::POST, path, handler);
    }

    /// Adds a PUT route.
    pub fn put(&mut self, path: &str, handler: H)
        ensures
            final(self).entries() == old(self).entries().push((Method::PUT, path@)),
            final(self).prefix == old(self).prefix,
    {
        self.push_route(Method::PUT, path, handler);
    }

    /// Adds a DELETE route.
    pub fn delete(&mut self, path: &str, handler: H)
        ensures
            final(self).entries() == old(self).entries().push((Method::DELETE, path@)),
            final(self).prefix == old(self).prefix,
    {
        self.push_route(Method::DELETE, path, handler);
    }

    /// Adds a PATCH route.
    pub fn patch(&mut self, path: &str, handler: H)
        ensures
            final(self).entries() == old(self).entries().push((Method::PATCH, path@)),
            final(self).prefix == old(self).prefix,
    {
        self.push_route(Method::PATCH, path, handler);
    }

    /// Adds middleware to this group.
    pub fn use_middleware(&mut self, middleware: M)
        ensures
            final(self).entries() == old(self).entries(),
            final(self).prefix == old(self).prefix,
            final(self).middleware@ == old(self).middleware@.push(middleware),
    {
        self.middleware.push(middleware);
    }
}

} // verus!

verus! {

/// What handles a request routed to it.
pub trait Handler {
    /// What a call does: the request and response before it, and after.
    /// Says nothing unless the handler states it.
    open spec fn handles(&self, req: Request, res: Response, req_after: Request, res_after: Response) -> bool {
        true
    }

    /// Handles the request by setting the response.
    fn call(&self, req: &mut Request, res: &mut Response)
        ensures
            self.handles(*old(req), *old(res), *final(req), *final(res)),
    ;
}

/// What routing does to a request and its response. `found` says whether
/// some route, of any method, takes the path; when none does nothing
/// changes. When only other methods take it the answer is 405 `Method Not
/// Allowed`. Otherwise the first route of the method that matches runs its
/// handler on the request with the route's path parameters set.
pub open spec fn routed<H: Handler, W>(
    router: Router<H, W>,
    req: Request,
    res: Response,
    req_after: Request,
    res_after: Response,
    found: bool,
) -> bool {
    &&& found == exists|i: int| 0 <= i < router.table().len() && route_match(router.table()[i].1, req.path@) is Some
    &&& !found ==> req_after == req && res_after == res
    &&& found && first_match(router.table(), req.method, req.path@) is None ==> req_after == req
        && res_after.status_code == 405 && res_after.body@ == vstd::utf8::encode_utf8("Method Not Allowed"@)
        && res_after.sent
    &&& first_match(router.table(), req.method, req.path@) matches Some(i) ==> exists|mid: Request|
        #[trigger] router.handler_at(i).handles(mid, res, req_after, res_after) && mid == (Request {
            params: mid.params,
            ..req
        }) && route_match(router.table()[i].1, req.path@) == Some(mid.params@)
}

impl<H: Handler, W> Router<H, W> {
    /// Routes a request and calls its handler. Returns `false` when no
    /// route matches the path; a path that only other methods take is
    /// answered with 405 `Method Not Allowed`.
    pub fn handle(&self, req: &mut Request, res: &mut Response) -> (found: bool)
        ensures
            routed(*self, *old(req), *old(res), *final(req), *final(res), found),
    {
        match self.dispatch(req, res) {
            Dispatch::Call(h) => {
                proof {
                    lemma_first_match_some(self.table(), old(req).method, old(req).path@);
                }
                let ghost mid = *req;
                h.call(req, res);
                assert(h.handles(mid, *old(res), *req, *res));
                true
            },
            Dispatch::Answered => true,
            Dispatch::Unmatched => {
                false
            },
        }
    }
}

} // verus!

verus! {

/// Some route of the method matches, so a first one does.
proof fn lemma_least_match(t: Seq<(Method, Seq<char>)>, method: Method, path: Seq<char>, k: int)
    requires
        0 <= k < t.len(),
        t[k].0 == method && route_match(t[k].1, path) is Some,
    ensures
        exists|i: int|
            0 <= i < t.len() && t[i].0 == method && route_match(t[i].1, path) is Some && forall|j: int|
                0 <= j < i ==> !(t[j].0 == method && route_match(t[j].1, path) is Some),
    decreases k,
{
    if exists|j: int| 0 <= j < k && t[j].0 == method && route_match(t[j].1, path) is Some {
        let j = choose|j: int| 0 <= j < k && t[j].0 == method && route_match(t[j].1, path) is Some;
        lemma_least_match(t, method, path, j);
    } else {
        assert(forall|j: int| 0 <= j < k ==> !(t[j].0 == method && route_match(t[j].1, path) is Some));
    }
}

/// What `first_match` names is the first route of the method that matches.
pub proof fn lemma_first_match_is_first(t: Seq<(Method, Seq<char>)>, method: Method, path: Seq<char>)
    requires
        first_match(t, method, path) is Some,
    ensures
        first_match(t, method, path) matches Some(i) && 0 <= i < t.len() && t[i].0 == method && route_match(
            t[i].1,
            path,
        ) is Some && forall|j: int| 0 <= j < i ==> !(t[j].0 == method && route_match(t[j].1, path) is Some),
{
    let k = choose|k: int| 0 <= k < t.len() && t[k].0 == method && route_match(t[k].1, path) is Some;
    lemma_least_match(t, method, path, k);
}

/// Registering another route never changes the route a request already
/// had: routes are tried in registration order and the first match wins.
pub proof fn law_first_match_kept(
    t: Seq<(Method, Seq<char>)>,
    added: (Method, Seq<char>),
    method: Method,
    path: Seq<char>,
)
    requires
        first_match(t, method, path) is Some,
    ensures
        first_match(t.push(added), method, path) == first_match(t, method, path),
{
    lemma_first_match_is_first(t, method, path);
    let i = first_match(t, method, path)->0;
    let t2 = t.push(added);
    assert(t2[i] == t[i]);
    assert forall|j: int| 0 <= j < i implies !(t2[j].0 == method && route_match(t2[j].1, path) is Some) by {
        assert(t2[j] == t[j]);
    }
    lemma_first_match(t2, method, path, i);
}

/// A request with no route of its method gets the route added for it, when
/// that route matches.
pub proof fn law_added_route_found(
    t: Seq<(Method, Seq<char>)>,
    added: (Method, Seq<char>),
    path: Seq<char>,
)
    requires
        first_match(t, added.0, path) is None,
        route_match(added.1, path) is Some,
    ensures
        first_match(t.push(added), added.0, path) == Some(t.len() as int),
{
    let t2 = t.push(added);
    assert forall|j: int| 0 <= j < t.len() implies !(t2[j].0 == added.0 && route_match(t2[j].1, path) is Some) by {
        assert(t2[j] == t[j]);
        if t[j].0 == added.0 && route_match(t[j].1, path) is Some {
            lemma_least_match(t, added.0, path, j);
        }
    }
    lemma_first_match(t2, added.0, path, t.len() as int);
}

} // verus!

verus! {

impl<H, W> Default for Router<H, W> {
    fn default() -> (r: Self)
        ensures
            r.table() == Seq::<(Method, Seq<char>)>::empty(),
            r.ws_table() == Seq::<Seq<char>>::empty(),
    {
        Router::new()
    }
}

} // verus!

verus! {

/// A route pattern matches only whole paths: the expression it compiles to
/// is anchored at the start of the path (`^`) and at its end (`$`), so a
/// path that merely contains or ends with the pattern is not taken.
pub proof fn law_pattern_anchored(p: Seq<char>)
    ensures
        pattern_regex(p).len() >= 2,
        pattern_regex(p)[0] == '^',
        pattern_regex(p).last() == '$',
{
    reveal_strlit("^/$");
    reveal_strlit("^");
    reveal_strlit("$");
    if p != "/"@ {
        let mid = segments_regex(split_seq(p, seq!['/']));
        let r = "^"@ + mid + "$"@;
        assert(r[0] == ("^"@ + mid)[0]);
        assert(r.last() == "$"@[0]);
    }
}

} // verus!

verus! {

/// Segments joined back into a path: each one behind a `/`.
pub open spec fn slash_joined(segs: Seq<Seq<char>>) -> Seq<char>
    decreases segs.len(),
{
    if segs.len() == 0 {
        Seq::empty()
    } else {
        slash_joined(segs.drop_last()) + seq!['/'] + segs.last()
    }
}

/// A segment that is matched literally: not empty, not a `:name` or
/// `*name` parameter, and free of regex meta characters.
pub open spec fn plain_segment(seg: Seq<char>) -> bool {
    &&& seg.len() > 0
    &&& seg[0] != ':'
    &&& seg[0] != '*'
    &&& forall|i: int| 0 <= i < seg.len() ==> !is_meta(#[trigger] seg[i])
}

/// Text without meta characters is its own escape.
pub proof fn lemma_escape_plain(s: Seq<char>)
    requires
        forall|i: int| 0 <= i < s.len() ==> !is_meta(#[trigger] s[i]),
    ensures
        regex_escaped(s) == s,
    decreases s.len(),
{
    if s.len() > 0 {
        let t = s.drop_last();
        assert forall|i: int| 0 <= i < t.len() implies !is_meta(#[trigger] t[i]) by {
            assert(t[i] == s[i]);
        }
        lemma_escape_plain(t);
        assert(!is_meta(s[s.len() - 1]));
        assert(s =~= t + seq![s.last()]);
    }
}

/// Literal segments compile to themselves: the expression for a path of
/// plain segments is that very path, and it names no parameters. So a
/// pattern of plain segments is matched by its own text only (the
/// expression being anchored at both ends).
pub proof fn law_plain_segments_verbatim(segs: Seq<Seq<char>>)
    requires
        forall|k: int| 0 <= k < segs.len() ==> plain_segment(#[trigger] segs[k]),
    ensures
        segments_regex(segs) == slash_joined(segs),
        segments_params(segs) == Seq::<Seq<char>>::empty(),
    decreases segs.len(),
{
    if segs.len() > 0 {
        let t = segs.drop_last();
        assert forall|k: int| 0 <= k < t.len() implies plain_segment(#[trigger] t[k]) by {
            assert(t[k] == segs[k]);
        }
        law_plain_segments_verbatim(t);
        let last = segs.last();
        assert(plain_segment(segs[segs.len() - 1]));
        lemma_escape_plain(last);
        reveal_strlit("/");
        assert("/"@ =~= seq!['/']);
    }
}

/// A `:name` segment takes one non-empty path segment and a `*name`
/// segment everything remaining (possibly nothing); each names its
/// parameter, in order after the parameters before it.
pub proof fn law_parameter_segments(segs: Seq<Seq<char>>, n: Seq<char>)
    ensures
        segments_regex(segs.push(seq![':'] + n)) == segments_regex(segs) + "/([^/]+)"@,
        segments_params(segs.push(seq![':'] + n)) == segments_params(segs).push(n),
        segments_regex(segs.push(seq!['*'] + n)) == segments_regex(segs) + "/(.*)"@,
        segments_params(segs.push(seq!['*'] + n)) == segments_params(segs).push(n),
{
    let a = seq![':'] + n;
    let w = seq!['*'] + n;
    assert(segs.push(a).drop_last() =~= segs);
    assert(segs.push(w).drop_last() =~= segs);
    assert(a[0] == ':' && a.drop_first() =~= n);
    assert(w[0] == '*' && w.drop_first() =~= n);
}

} // verus!
