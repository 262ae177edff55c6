//! Percent-decoding, query strings, form bodies and cookie headers.

use vstd::prelude::*;

use crate::strmap::{multi_append, MultiMap, StrMap};
use crate::text::{
    chars_of, copy_range, find, find_seq, split, split_once, split_once_char, split_seq, string_of,
    trim, trim_chars,
};
use vstd::utf8::{decode_utf8, encode_utf8, valid_utf8};

verus! {

/// The value of an ASCII hex digit.
pub open spec fn hex_value(b: u8) -> Option<u8> {
    if 48 <= b <= 57 {
        Some((b - 48) as u8)
    } else if 65 <= b <= 70 {
        Some((b - 65 + 10) as u8)
    } else if 97 <= b <= 102 {
        Some((b - 97 + 10) as u8)
    } else {
        None
    }
}

/// Percent-decoding of bytes: `%XY` with two hex digits becomes one byte;
/// every other byte, including a `%` not followed by two hex digits, is
/// kept. A `+` stays a `+`.
pub open spec fn percent_decode(b: Seq<u8>) -> Seq<u8>
    decreases b.len(),
{
    if b.len() == 0 {
        Seq::empty()
    } else if b[0] == 37 && b.len() >= 3 && hex_value(b[1]) is Some && hex_value(b[2]) is Some {
        seq![((hex_value(b[1]).unwrap() as int) * 16 + (hex_value(b[2]).unwrap() as int)) as u8]
            + percent_decode(b.subrange(3, b.len() as int))
    } else if b[0] == 37 && b.len() >= 3 && hex_value(b[1]) is Some {
        seq![37u8, b[1]] + percent_decode(b.subrange(2, b.len() as int))
    } else {
        seq![b[0]] + percent_decode(b.subrange(1, b.len() as int))
    }
}

/// `urlencoding::decode`: percent-decode the UTF-8 bytes of `s`; the result
/// is text when the decoded bytes are valid UTF-8.
pub open spec fn url_decoded(s: Seq<char>) -> Option<Seq<char>> {
    let d = percent_decode(encode_utf8(s));
    if valid_utf8(d) {
        Some(decode_utf8(d))
    } else {
        None
    }
}

/// `urlencoding::decode(s).unwrap_or_default()`.
pub open spec fn decode_or_empty(s: Seq<char>) -> Seq<char> {
    match url_decoded(s) {
        Some(t) => t,
        None => Seq::empty(),
    }
}

/// `urlencoding::decode`: percent-decodes `s` as UTF-8 text. Returns `None`
/// when the decoded bytes are not valid UTF-8.
#[verifier::external_body]
fn url_decode(s: &str) -> (r: Option<String>)
    ensures
        match r {
            Some(t) => url_decoded(s@) == Some(t@),
            None => url_decoded(s@) is None,
        },
{
    urlencoding::decode(s).ok().map(|c| c.into_owned())
}

/// Percent-decodes characters, giving the empty string when the decoded
/// bytes are not valid UTF-8.
pub fn decode_chars(v: &[char]) -> (r: String)
    ensures
        r@ == decode_or_empty(v@),
{
    let s = string_of(v);
    match url_decode(s.as_str()) {
        Some(t) => t,
        None => String::new(),
    }
}

/// The query parameters of one `key=value` pair added to `m`; a pair with no
/// `=` gives an empty value.
pub open spec fn query_pair(m: Map<Seq<char>, Seq<Seq<char>>>, pair: Seq<char>) -> Map<
    Seq<char>,
    Seq<Seq<char>>,
> {
    if pair.len() == 0 {
        m
    } else {
        let (k, v) = split_once(pair, '=');
        multi_append(
            m,
            decode_or_empty(k),
            match v {
                Some(x) => decode_or_empty(x),
                None => Seq::empty(),
            },
        )
    }
}

/// The query parameters of a list of pairs, in order.
pub open spec fn query_pairs(pairs: Seq<Seq<char>>) -> Map<Seq<char>, Seq<Seq<char>>>
    decreases pairs.len(),
{
    if pairs.len() == 0 {
        Map::empty()
    } else {
        query_pair(query_pairs(pairs.drop_last()), pairs.last())
    }
}

/// The path of a request target: everything before the first `?`.
pub open spec fn url_path(full: Seq<char>) -> Seq<char> {
    match find_seq(full, seq!['?']) {
        Some(pos) => full.subrange(0, pos),
        None => full,
    }
}

/// The query parameters of a request target: the `&`-separated pairs after
/// the first `?`, percent-decoded; several values per key in order.
pub open spec fn url_query(full: Seq<char>) -> Map<Seq<char>, Seq<Seq<char>>> {
    match find_seq(full, seq!['?']) {
        Some(pos) => query_pairs(split_seq(full.subrange(pos + 1, full.len() as int), seq!['&'])),
        None => Map::empty(),
    }
}

fn add_query_pair(m: &mut MultiMap, pair: &[char])
    ensures
        final(m)@ == query_pair(old(m)@, pair@),
{
    if pair.len() == 0 {
        return;
    }
    let (k, v) = split_once_char(pair, '=');
    let key = decode_chars(k.as_slice());
    let value = match v {
        Some(x) => decode_chars(x.as_slice()),
        None => String::new(),
    };
    m.append(key, value);
}

/// Splits a request target into its path and its query parameters.
pub fn parse_url(full: &str) -> (r: (String, MultiMap))
    ensures
        r.0@ == url_path(full@),
        r.1@ == url_query(full@),
{
    let v = chars_of(full);
    let mut query = MultiMap::new();
    let q = vec!['?'];
    assert(q@ =~= seq!['?']);
    let _len = v.len();
    match find(v.as_slice(), q.as_slice()) {
        Some(pos) => {
            let path = copy_range(v.as_slice(), 0, pos);
            let qs = copy_range(v.as_slice(), pos + 1, v.len());
            let amp = vec!['&'];
            assert(amp@ =~= seq!['&']);
            let pairs = split(qs.as_slice(), amp.as_slice());
            let ghost ps = crate::text::views(pairs@);
            let mut i: usize = 0;
            while i < pairs.len()
                invariant
                    i <= pairs@.len(),
                    ps == crate::text::views(pairs@),
                    query@ == query_pairs(ps.subrange(0, i as int)),
                decreases pairs@.len() - i,
            {
                add_query_pair(&mut query, pairs[i].as_slice());
                assert(ps.subrange(0, i + 1).drop_last() =~= ps.subrange(0, i as int));
                i = i + 1;
            }
            assert(ps.subrange(0, pairs@.len() as int) =~= ps);
            (string_of(path.as_slice()), query)
        },
        None => {
            assert(query@ =~= Map::<Seq<char>, Seq<Seq<char>>>::empty());
            (full.to_owned(), query)
        },
    }
}

/// One form field `key=value` added to `m`; pairs without `=` are skipped.
pub open spec fn form_pair(m: Map<Seq<char>, Seq<char>>, pair: Seq<char>) -> Map<Seq<char>, Seq<char>> {
    if pair.len() == 0 {
        m
    } else {
        let (k, v) = split_once(pair, '=');
        match v {
            Some(x) => m.insert(decode_or_empty(k), decode_or_empty(x)),
            None => m,
        }
    }
}

pub open spec fn form_pairs(pairs: Seq<Seq<char>>) -> Map<Seq<char>, Seq<char>>
    decreases pairs.len(),
{
    if pairs.len() == 0 {
        Map::empty()
    } else {
        form_pair(form_pairs(pairs.drop_last()), pairs.last())
    }
}

/// The fields of an `application/x-www-form-urlencoded` body.
pub open spec fn form_fields(body: Seq<char>) -> Map<Seq<char>, Seq<char>> {
    form_pairs(split_seq(body, seq!['&']))
}

fn add_form_pair(m: &mut StrMap, pair: &[char])
    ensures
        final(m)@ == form_pair(old(m)@, pair@),
{
    if pair.len() == 0 {
        return;
    }
    let (k, v) = split_once_char(pair, '=');
    match v {
        Some(x) => {
            let key = decode_chars(k.as_slice());
            let value = decode_chars(x.as_slice());
            m.insert(key, value);
        },
        None => {},
    }
}

/// Parses a URL-encoded form body.
pub fn parse_form(body: &str) -> (m: StrMap)
    ensures
        m@ == form_fields(body@),
{
    let v = chars_of(body);
    let amp = vec!['&'];
    assert(amp@ =~= seq!['&']);
    let pairs = split(v.as_slice(), amp.as_slice());
    let ghost ps = crate::text::views(pairs@);
    let mut m = StrMap::new();
    let mut i: usize = 0;
    while i < pairs.len()
        invariant
            i <= pairs@.len(),
            ps == crate::text::views(pairs@),
            m@ == form_pairs(ps.subrange(0, i as int)),
        decreases pairs@.len() - i,
    {
        add_form_pair(&mut m, pairs[i].as_slice());
        assert(ps.subrange(0, i + 1).drop_last() =~= ps.subrange(0, i as int));
        i = i + 1;
    }
    assert(ps.subrange(0, pairs@.len() as int) =~= ps);
    m
}

/// One cookie `name=value` (surrounding whitespace trimmed) added to `m`;
/// pieces without `=` are skipped.
pub open spec fn cookie_pair(m: Map<Seq<char>, Seq<char>>, piece: Seq<char>) -> Map<Seq<char>, Seq<char>> {
    let t = trim(piece);
    match find_seq(t, seq!['=']) {
        Some(pos) => m.insert(trim(t.subrange(0, pos)), trim(t.subrange(pos + 1, t.len() as int))),
        None => m,
    }
}

pub open spec fn cookie_pairs(pieces: Seq<Seq<char>>) -> Map<Seq<char>, Seq<char>>
    decreases pieces.len(),
{
    if pieces.len() == 0 {
        Map::empty()
    } else {
        cookie_pair(cookie_pairs(pieces.drop_last()), pieces.last())
    }
}

/// The cookies of a `Cookie` header value: `;`-separated `name=value` pairs.
pub open spec fn cookie_header(h: Seq<char>) -> Map<Seq<char>, Seq<char>> {
    cookie_pairs(split_seq(h, seq![';']))
}

fn add_cookie(m: &mut StrMap, piece: &[char])
    ensures
        final(m)@ == cookie_pair(old(m)@, piece@),
{
    let t = trim_chars(piece);
    let eq = vec!['='];
    assert(eq@ =~= seq!['=']);
    let _len = t.len();
    match find(t.as_slice(), eq.as_slice()) {
        Some(pos) => {
            let n = copy_range(t.as_slice(), 0, pos);
            let v = copy_range(t.as_slice(), pos + 1, t.len());
            let name = trim_chars(n.as_slice());
            let value = trim_chars(v.as_slice());
            m.insert(string_of(name.as_slice()), string_of(value.as_slice()));
        },
        None => {},
    }
}

/// Parses the value of a `Cookie` header.
pub fn parse_cookie_header(h: &str) -> (m: StrMap)
    ensures
        m@ == cookie_header(h@),
{
    let v = chars_of(h);
    let semi = vec![';'];
    assert(semi@ =~= seq![';']);
    let pieces = split(v.as_slice(), semi.as_slice());
    let ghost ps = crate::text::views(pieces@);
    let mut m = StrMap::new();
    let mut i: usize = 0;
    while i < pieces.len()
        invariant
            i <= pieces@.len(),
            ps == crate::text::views(pieces@),
            m@ == cookie_pairs(ps.subrange(0, i as int)),
        decreases pieces@.len() - i,
    {
        add_cookie(&mut m, pieces[i].as_slice());
        assert(ps.subrange(0, i + 1).drop_last() =~= ps.subrange(0, i as int));
        i = i + 1;
    }
    assert(ps.subrange(0, pieces@.len() as int) =~= ps);
    m
}

} // verus!
