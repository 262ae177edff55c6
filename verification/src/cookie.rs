//! Cookie building for `Set-Cookie` header values.

use vstd::prelude::*;

use crate::decimal::{decimal_int, push_decimal_i64};
use crate::text::{chars_of, push_all, string_of};

verus! {

/// The SameSite cookie attribute.
#[derive(Debug, Clone, PartialEq)]
pub enum SameSite {
    /// Only sent in a first-party context.
    Strict,
    /// Sent with top-level navigations and third-party GET requests.
    Lax,
    /// Sent in all contexts (requires Secure).
    NoRestriction,
}

/// The attributes a cookie builder holds.
pub struct CookieView {
    pub name: Seq<char>,
    pub value: Seq<char>,
    pub path: Option<Seq<char>>,
    pub domain: Option<Seq<char>>,
    pub max_age: Option<i64>,
    pub expires: Option<Seq<char>>,
    pub secure: bool,
    pub http_only: bool,
    pub same_site: Option<SameSite>,
}

/// Builder for `Set-Cookie` header values.
#[derive(Debug, Clone)]
pub struct CookieBuilder {
    name: String,
    value: String,
    path: Option<String>,
    domain: Option<String>,
    max_age: Option<i64>,
    expires: Option<String>,
    secure: bool,
    http_only: bool,
    same_site: Option<SameSite>,
}

pub open spec fn opt_view(o: Option<String>) -> Option<Seq<char>> {
    match o {
        Some(s) => Some(s@),
        None => None,
    }
}

/// `"; <label><value>"` when the attribute is present, nothing otherwise.
pub open spec fn attr_text(label: Seq<char>, v: Option<Seq<char>>) -> Seq<char> {
    match v {
        Some(x) => label + x,
        None => Seq::empty(),
    }
}

pub open spec fn same_site_text(s: Option<SameSite>) -> Seq<char> {
    match s {
        Some(SameSite::Strict) => "; SameSite=Strict"@,
        Some(SameSite::Lax) => "; SameSite=Lax"@,
        Some(SameSite::NoRestriction) => "; SameSite=None"@,
        None => Seq::empty(),
    }
}

/// The `Set-Cookie` value for a cookie: `name=value` followed by the
/// attributes that are set, in the order Path, Domain, Max-Age, Expires,
/// Secure, HttpOnly, SameSite.
pub open spec fn cookie_text(c: CookieView) -> Seq<char> {
    c.name + "="@ + c.value + attr_text("; Path="@, c.path) + attr_text("; Domain="@, c.domain)
        + max_age_text(c.max_age) + attr_text("; Expires="@, c.expires) + flags_text(
        c.secure,
        c.http_only,
    ) + same_site_text(c.same_site)
}

impl View for CookieBuilder {
    type V = CookieView;

    closed spec fn view(&self) -> CookieView {
        CookieView {
            name: self.name@,
            value: self.value@,
            path: opt_view(self.path),
            domain: opt_view(self.domain),
            max_age: self.max_age,
            expires: opt_view(self.expires),
            secure: self.secure,
            http_only: self.http_only,
            same_site: self.same_site,
        }
    }
}

/// Appends the characters of a string slice.
fn append_str(out: &mut Vec<char>, s: &str)
    ensures
        final(out)@ == old(out)@ + s@,
{
    let v = chars_of(s);
    push_all(out, v.as_slice());
}

fn append_attr(out: &mut Vec<char>, label: &str, v: &Option<String>)
    ensures
        final(out)@ == old(out)@ + attr_text(label@, opt_view(*v)),
{
    match v {
        Some(x) => {
            append_str(out, label);
            append_str(out, x.as_str());
            assert(final(out)@ =~= old(out)@ + (label@ + x@));
        },
        None => {
            assert(final(out)@ =~= old(out)@ + Seq::<char>::empty());
        },
    }
}

pub open spec fn max_age_text(m: Option<i64>) -> Seq<char> {
    match m {
        Some(n) => "; Max-Age="@ + decimal_int(n as int),
        None => Seq::empty(),
    }
}

pub open spec fn flags_text(secure: bool, http_only: bool) -> Seq<char> {
    (if secure {
        "; Secure"@
    } else {
        Seq::empty()
    }) + (if http_only {
        "; HttpOnly"@
    } else {
        Seq::empty()
    })
}

fn append_max_age(out: &mut Vec<char>, m: Option<i64>)
    ensures
        final(out)@ == old(out)@ + max_age_text(m),
{
    match m {
        Some(n) => {
            append_str(out, "; Max-Age=");
            push_decimal_i64(out, n);
            assert(final(out)@ =~= old(out)@ + ("; Max-Age="@ + decimal_int(n as int)));
        },
        None => {
            assert(final(out)@ =~= old(out)@ + Seq::<char>::empty());
        },
    }
}

fn append_flags(out: &mut Vec<char>, secure: bool, http_only: bool)
    ensures
        final(out)@ == old(out)@ + flags_text(secure, http_only),
{
    let ghost o = out@;
    if secure {
        append_str(out, "; Secure");
    }
    let ghost m = out@;
    assert(m =~= o + (if secure { "; Secure"@ } else { Seq::<char>::empty() }));
    if http_only {
        append_str(out, "; HttpOnly");
    }
    assert(out@ =~= m + (if http_only { "; HttpOnly"@ } else { Seq::<char>::empty() }));
    assert(out@ =~= o + flags_text(secure, http_only));
}

fn append_same_site(out: &mut Vec<char>, s: &Option<SameSite>)
    ensures
        final(out)@ == old(out)@ + same_site_text(*s),
{
    match s {
        Some(SameSite::Strict) => append_str(out, "; SameSite=Strict"),
        Some(SameSite::Lax) => append_str(out, "; SameSite=Lax"),
        Some(SameSite::NoRestriction) => append_str(out, "; SameSite=None"),
        None => {
            assert(final(out)@ =~= old(out)@ + Seq::<char>::empty());
        },
    }
}

impl CookieBuilder {
    /// Creates a cookie with the given name and value and no attributes.
    pub fn new(name: &str, value: &str) -> (c: Self)
        ensures
            c@ == (CookieView {
                name: name@,
                value: value@,
                path: None,
                domain: None,
                max_age: None,
                expires: None,
                secure: false,
                http_only: false,
                same_site: None,
            }),
    {
        CookieBuilder {
            name: name.to_owned(),
            value: value.to_owned(),
            path: None,
            domain: None,
            max_age: None,
            expires: None,
            secure: false,
            http_only: false,
            same_site: None,
        }
    }

    /// Sets the Path attribute.
    pub fn path(self, path: &str) -> (c: Self)
        ensures
            c@ == (CookieView { path: Some(path@), ..self@ }),
    {
        CookieBuilder { path: Some(path.to_owned()), ..self }
    }

    /// Sets the Domain attribute.
    pub fn domain(self, domain: &str) -> (c: Self)
        ensures
            c@ == (CookieView { domain: Some(domain@), ..self@ }),
    {
        CookieBuilder { domain: Some(domain.to_owned()), ..self }
    }

    /// Sets the Max-Age attribute in seconds.
    pub fn max_age(self, seconds: i64) -> (c: Self)
        ensures
            c@ == (CookieView { max_age: Some(seconds), ..self@ }),
    {
        CookieBuilder { max_age: Some(seconds), ..self }
    }

    /// Sets the Expires attribute as an HTTP-date string.
    pub fn expires(self, date: &str) -> (c: Self)
        ensures
            c@ == (CookieView { expires: Some(date@), ..self@ }),
    {
        CookieBuilder { expires: Some(date.to_owned()), ..self }
    }

    /// Sets the Secure flag.
    pub fn secure(self) -> (c: Self)
        ensures
            c@ == (CookieView { secure: true, ..self@ }),
    {
        CookieBuilder { secure: true, ..self }
    }

    /// Sets the HttpOnly flag.
    pub fn http_only(self) -> (c: Self)
        ensures
            c@ == (CookieView { http_only: true, ..self@ }),
    {
        CookieBuilder { http_only: true, ..self }
    }

    /// Sets the SameSite attribute.
    pub fn same_site(self, same_site: SameSite) -> (c: Self)
        ensures
            c@ == (CookieView { same_site: Some(same_site), ..self@ }),
    {
        CookieBuilder { same_site: Some(same_site), ..self }
    }

    /// Builds the `Set-Cookie` header value.
    pub fn build(&self) -> (s: String)
        ensures
            s@ == cookie_text(self@),
    {
        let mut out: Vec<char> = Vec::new();
        append_str(&mut out, self.name.as_str());
        append_str(&mut out, "=");
        append_str(&mut out, self.value.as_str());
        let ghost b0 = out@;
        append_attr(&mut out, "; Path=", &self.path);
        let ghost b1 = out@;
        append_attr(&mut out, "; Domain=", &self.domain);
        let ghost b2 = out@;
        append_max_age(&mut out, self.max_age);
        let ghost b3 = out@;
        append_attr(&mut out, "; Expires=", &self.expires);
        let ghost b4 = out@;
        append_flags(&mut out, self.secure, self.http_only);
        let ghost b5 = out@;
        append_same_site(&mut out, &self.same_site);
        proof {
            let c = self@;
            assert(b0 =~= c.name + "="@ + c.value);
            assert(out@ =~= cookie_text(c));
        }
        string_of(out.as_slice())
    }

    /// A cookie that removes `name`: empty value, `Max-Age=0`, `Path=/`.
    pub fn removal(name: &str) -> (c: Self)
        ensures
            c@ == (CookieView {
                name: name@,
                value: ""@,
                path: Some("/"@),
                domain: None,
                max_age: Some(0),
                expires: None,
                secure: false,
                http_only: false,
                same_site: None,
            }),
    {
        Self::new(name, "").max_age(0).path("/")
    }
}

} // verus!

verus! {

/// The removal cookie for `name` renders as `name=; Path=/; Max-Age=0`.
pub proof fn law_removal_cookie_text(name: Seq<char>, c: CookieView)
    requires
        c == (CookieView {
            name: name,
            value: ""@,
            path: Some("/"@),
            domain: None,
            max_age: Some(0),
            expires: None,
            secure: false,
            http_only: false,
            same_site: None,
        }),
    ensures
        cookie_text(c) == name + "="@ + "; Path=/"@ + "; Max-Age=0"@,
{
    reveal_strlit("");
    reveal_strlit("0");
    assert(crate::decimal::decimal_int(0) =~= seq!['0']);
    assert(cookie_text(c) =~= name + "="@ + ""@ + ("; Path="@ + "/"@) + ("; Max-Age="@ + seq!['0']));
    reveal_strlit("; Path=/");
    reveal_strlit("; Path=");
    reveal_strlit("/");
    reveal_strlit("; Max-Age=0");
    reveal_strlit("; Max-Age=");
    assert(cookie_text(c) =~= name + "="@ + "; Path=/"@ + "; Max-Age=0"@);
}

} // verus!
