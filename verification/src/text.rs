//! Character-level text utilities with exact specifications.
//!
//! Strings are handled as sequences of `char`. Every operation here states
//! its result over `Seq<char>` so that the parsers built on top of it can be
//! specified exactly.

use vstd::prelude::*;

verus! {

// ---------------------------------------------------------------------
// Conversions between strings and character vectors
// ---------------------------------------------------------------------

/// `str::chars` collected into a vector: the vector holds exactly the
/// characters of `s`, in order.
#[verifier::external_body]
pub(crate) fn chars_of(s: &str) -> (v: Vec<char>)
    ensures
        v@ == s@,
{
    s.chars().collect()
}

/// `String: FromIterator<char>`: the string made of exactly the given
/// characters, in order.
#[verifier::external_body]
pub(crate) fn string_of(v: &[char]) -> (s: String)
    ensures
        s@ == v@,
{
    v.iter().collect()
}

/// Copies `v[lo..hi]` into a new vector.
pub fn copy_range<T: Copy>(v: &[T], lo: usize, hi: usize) -> (r: Vec<T>)
    requires
        lo <= hi <= v@.len(),
    ensures
        r@ == v@.subrange(lo as int, hi as int),
{
    let mut r: Vec<T> = Vec::new();
    let mut i = lo;
    while i < hi
        invariant
            lo <= i <= hi <= v@.len(),
            r@ == v@.subrange(lo as int, i as int),
        decreases hi - i,
    {
        r.push(v[i]);
        assert(r@ =~= v@.subrange(lo as int, i + 1));
        i = i + 1;
    }
    r
}

/// Appends all of `src` to `dst`.
pub fn push_all<T: Copy>(dst: &mut Vec<T>, src: &[T])
    ensures
        final(dst)@ == old(dst)@ + src@,
{
    let mut i: usize = 0;
    while i < src.len()
        invariant
            i <= src@.len(),
            dst@ == old(dst)@ + src@.subrange(0, i as int),
        decreases src@.len() - i,
    {
        dst.push(src[i]);
        assert(src@.subrange(0, i + 1) =~= src@.subrange(0, i as int).push(src@[i as int]));
        assert(dst@ =~= old(dst)@ + src@.subrange(0, i + 1));
        i = i + 1;
    }
    assert(src@.subrange(0, src@.len() as int) =~= src@);
}

/// Character-sequence equality.
pub fn chars_eq(a: &[char], b: &[char]) -> (r: bool)
    ensures
        r == (a@ == b@),
{
    if a.len() != b.len() {
        return false;
    }
    let mut i: usize = 0;
    while i < a.len()
        invariant
            a@.len() == b@.len(),
            i <= a@.len(),
            forall|k: int| 0 <= k < i ==> a@[k] == b@[k],
        decreases a@.len() - i,
    {
        if a[i] != b[i] {
            return false;
        }
        i = i + 1;
    }
    assert(a@ =~= b@);
    true
}

/// Equality of two string slices by their characters.
pub fn str_eq(a: &str, b: &str) -> (r: bool)
    ensures
        r == (a@ == b@),
{
    let va = chars_of(a);
    let vb = chars_of(b);
    chars_eq(va.as_slice(), vb.as_slice())
}

// ---------------------------------------------------------------------
// Whitespace and trimming
// ---------------------------------------------------------------------

/// The Unicode `White_Space` property, which `char::is_whitespace` tests.
pub open spec fn is_ws(c: char) -> bool {
    let u = c as u32;
    (9 <= u <= 13) || u == 32 || u == 0x85 || u == 0xa0 || u == 0x1680 || (0x2000 <= u
        <= 0x200a) || u == 0x2028 || u == 0x2029 || u == 0x202f || u == 0x205f || u == 0x3000
}

/// Tests whether `c` is Unicode whitespace.
pub fn is_whitespace(c: char) -> (b: bool)
    ensures
        b == is_ws(c),
{
    let u = c as u32;
    (9 <= u && u <= 13) || u == 32 || u == 0x85 || u == 0xa0 || u == 0x1680 || (0x2000 <= u && u
        <= 0x200a) || u == 0x2028 || u == 0x2029 || u == 0x202f || u == 0x205f || u == 0x3000
}

/// `s` without its leading whitespace.
pub open spec fn trim_start(s: Seq<char>) -> Seq<char>
    decreases s.len(),
{
    if s.len() > 0 && is_ws(s[0]) {
        trim_start(s.drop_first())
    } else {
        s
    }
}

/// `s` without its trailing whitespace.
pub open spec fn trim_end(s: Seq<char>) -> Seq<char>
    decreases s.len(),
{
    if s.len() > 0 && is_ws(s.last()) {
        trim_end(s.drop_last())
    } else {
        s
    }
}

/// `str::trim`: `s` without leading and trailing whitespace.
pub open spec fn trim(s: Seq<char>) -> Seq<char> {
    trim_end(trim_start(s))
}

/// `s` without all leading and trailing occurrences of `c`
/// (`str::trim_matches` with a single character).
pub open spec fn trim_char(s: Seq<char>, c: char) -> Seq<char> {
    trim_end_char(trim_start_char(s, c), c)
}

pub open spec fn trim_start_char(s: Seq<char>, c: char) -> Seq<char>
    decreases s.len(),
{
    if s.len() > 0 && s[0] == c {
        trim_start_char(s.drop_first(), c)
    } else {
        s
    }
}

pub open spec fn trim_end_char(s: Seq<char>, c: char) -> Seq<char>
    decreases s.len(),
{
    if s.len() > 0 && s.last() == c {
        trim_end_char(s.drop_last(), c)
    } else {
        s
    }
}

/// Trims whitespace from both ends (`str::trim`).
pub fn trim_chars(v: &[char]) -> (r: Vec<char>)
    ensures
        r@ == trim(v@),
{
    let n = v.len();
    let mut i: usize = 0;
    assert(v@.subrange(0, n as int) =~= v@);
    while i < n && is_whitespace(v[i])
        invariant
            i <= n == v@.len(),
            trim_start(v@) == trim_start(v@.subrange(i as int, n as int)),
        decreases n - i,
    {
        assert(v@.subrange(i as int, n as int).drop_first() =~= v@.subrange(i + 1, n as int));
        i = i + 1;
    }
    assert(trim_start(v@) == v@.subrange(i as int, n as int));
    let mut j: usize = n;
    while j > i && is_whitespace(v[j - 1])
        invariant
            i <= j <= n == v@.len(),
            trim(v@) == trim_end(v@.subrange(i as int, j as int)),
        decreases j,
    {
        assert(v@.subrange(i as int, j as int).drop_last() =~= v@.subrange(i as int, j - 1));
        j = j - 1;
    }
    copy_range(v, i, j)
}

/// Strips every leading and trailing `c` (`str::trim_matches(c)`).
pub fn trim_char_chars(v: &[char], c: char) -> (r: Vec<char>)
    ensures
        r@ == trim_char(v@, c),
{
    let n = v.len();
    let mut i: usize = 0;
    assert(v@.subrange(0, n as int) =~= v@);
    while i < n && v[i] == c
        invariant
            i <= n == v@.len(),
            trim_start_char(v@, c) == trim_start_char(v@.subrange(i as int, n as int), c),
        decreases n - i,
    {
        assert(v@.subrange(i as int, n as int).drop_first() =~= v@.subrange(i + 1, n as int));
        i = i + 1;
    }
    assert(trim_start_char(v@, c) == v@.subrange(i as int, n as int));
    let mut j: usize = n;
    while j > i && v[j - 1] == c
        invariant
            i <= j <= n == v@.len(),
            trim_char(v@, c) == trim_end_char(v@.subrange(i as int, j as int), c),
        decreases j,
    {
        assert(v@.subrange(i as int, j as int).drop_last() =~= v@.subrange(i as int, j - 1));
        j = j - 1;
    }
    copy_range(v, i, j)
}

// ---------------------------------------------------------------------
// Prefixes, occurrences, splitting
// ---------------------------------------------------------------------

pub open spec fn has_prefix(s: Seq<char>, p: Seq<char>) -> bool {
    p.len() <= s.len() && s.subrange(0, p.len() as int) == p
}

pub open spec fn has_suffix(s: Seq<char>, p: Seq<char>) -> bool {
    p.len() <= s.len() && s.subrange(s.len() - p.len(), s.len() as int) == p
}

/// Does `needle` occur in `s` starting at position `i`?
pub open spec fn occurs_at(s: Seq<char>, needle: Seq<char>, i: int) -> bool {
    0 <= i && i + needle.len() <= s.len() && s.subrange(i, i + needle.len()) == needle
}

/// Whether `v` starts with `p` at offset `at`.
pub fn matches_at(v: &[char], p: &[char], at: usize) -> (b: bool)
    ensures
        b == occurs_at(v@, p@, at as int),
{
    if at > v.len() || p.len() > v.len() - at {
        return false;
    }
    let mut k: usize = 0;
    let plen = p.len();
    assert(at + p@.len() <= v@.len());
    while k < plen
        invariant
            v@.len() <= usize::MAX,
            plen == p@.len(),
            at + p@.len() <= v@.len(),
            k <= p@.len(),
            forall|m: int| 0 <= m < k ==> v@[at + m] == p@[m],
        decreases p@.len() - k,
    {
        if v[at + k] != p[k] {
            assert(v@.subrange(at as int, at + p@.len())[k as int] != p@[k as int]);
            return false;
        }
        k = k + 1;
    }
    assert(v@.subrange(at as int, at + p@.len()) =~= p@);
    true
}

/// `str::starts_with` on character sequences.
pub fn starts_with(v: &[char], p: &[char]) -> (b: bool)
    ensures
        b == has_prefix(v@, p@),
{
    matches_at(v, p, 0)
}

/// `str::ends_with` on character sequences.
pub fn ends_with(v: &[char], p: &[char]) -> (b: bool)
    ensures
        b == has_suffix(v@, p@),
{
    if p.len() > v.len() {
        return false;
    }
    matches_at(v, p, v.len() - p.len())
}

/// Does `needle` occur anywhere in `s`?
pub open spec fn contains_seq(s: Seq<char>, needle: Seq<char>) -> bool {
    exists|i: int| occurs_at(s, needle, i)
}

/// Position of the first occurrence of `needle` in `s`.
#[verifier::opaque]
pub open spec fn find_seq(s: Seq<char>, needle: Seq<char>) -> Option<int> {
    if exists|i: int| occurs_at(s, needle, i) {
        Some(choose|i: int| occurs_at(s, needle, i) && forall|j: int| 0 <= j < i ==> !occurs_at(s, needle, j))
    } else {
        None
    }
}

/// The smallest occurrence is the one `find_seq` picks.
pub proof fn lemma_find_seq_first(s: Seq<char>, needle: Seq<char>, i: int)
    requires
        occurs_at(s, needle, i),
        forall|j: int| 0 <= j < i ==> !occurs_at(s, needle, j),
    ensures
        find_seq(s, needle) == Some(i),
{
    reveal(find_seq);
    let w = choose|k: int| occurs_at(s, needle, k) && forall|j: int| 0 <= j < k ==> !occurs_at(s, needle, j);
    assert(occurs_at(s, needle, w) && forall|j: int| 0 <= j < w ==> !occurs_at(s, needle, j));
    if w < i {
        assert(!occurs_at(s, needle, w));
    }
    if i < w {
        assert(!occurs_at(s, needle, i));
    }
}

/// No occurrence at all.
pub proof fn lemma_find_seq_none(s: Seq<char>, needle: Seq<char>)
    requires
        forall|j: int| !occurs_at(s, needle, j),
    ensures
        find_seq(s, needle) == None::<int>,
{
    reveal(find_seq);
}

/// Finds the first occurrence of `needle` in `v` at or after `from`.
pub fn find_from(v: &[char], needle: &[char], from: usize) -> (r: Option<usize>)
    requires
        from <= v@.len(),
    ensures
        match r {
            Some(i) => from <= i && occurs_at(v@, needle@, i as int) && forall|j: int|
                from <= j < i ==> !occurs_at(v@, needle@, j),
            None => forall|j: int| from <= j ==> !occurs_at(v@, needle@, j),
        },
{
    if needle.len() > v.len() {
        return None;
    }
    if needle.len() == 0 {
        assert(v@.subrange(from as int, from as int) =~= needle@);
        return Some(from);
    }
    let last = v.len() - needle.len();
    let mut i = from;
    while i <= last
        invariant
            from <= i,
            v@.len() <= usize::MAX,
            needle@.len() > 0,
            last + needle@.len() == v@.len(),
            forall|j: int| from <= j < i ==> !occurs_at(v@, needle@, j),
        decreases last + 1 - i,
    {
        if matches_at(v, needle, i) {
            return Some(i);
        }
        i = i + 1;
    }
    None
}

/// Finds the first occurrence of `needle` in `v`.
pub fn find(v: &[char], needle: &[char]) -> (r: Option<usize>)
    ensures
        r matches Some(i) ==> occurs_at(v@, needle@, i as int) && forall|j: int|
            0 <= j < i ==> !occurs_at(v@, needle@, j),
        r matches Some(i) ==> find_seq(v@, needle@) == Some(i as int),
        r is None ==> find_seq(v@, needle@) is None,
{
    let r = find_from(v, needle, 0);
    proof {
        match r {
            Some(i) => lemma_find_seq_first(v@, needle@, i as int),
            None => {
                assert forall|j: int| !occurs_at(v@, needle@, j) by {
                    if j < 0 {
                    }
                }
                lemma_find_seq_none(v@, needle@);
            }
        }
    }
    r
}

/// The pieces of `s` between the occurrences of the non-empty separator
/// `sep`, scanning left to right (`str::split` with a string pattern).
pub open spec fn split_seq(s: Seq<char>, sep: Seq<char>) -> Seq<Seq<char>>
    decreases s.len(),
{
    if sep.len() == 0 {
        seq![s]
    } else {
        match find_seq(s, sep) {
            Some(i) => if 0 <= i && i + sep.len() <= s.len() {
                seq![s.subrange(0, i)] + split_seq(s.subrange(i + sep.len(), s.len() as int), sep)
            } else {
                seq![s]
            },
            None => seq![s],
        }
    }
}

/// The character sequences held by a vector of character vectors.
pub open spec fn views(v: Seq<Vec<char>>) -> Seq<Seq<char>> {
    v.map_values(|x: Vec<char>| x@)
}

/// One step of splitting: the first occurrence at or after `pos` is at `i`.
pub proof fn lemma_split_step(s: Seq<char>, sep: Seq<char>, pos: int, i: int)
    requires
        sep.len() > 0,
        0 <= pos <= i,
        occurs_at(s, sep, i),
        forall|j: int| pos <= j < i ==> !occurs_at(s, sep, j),
    ensures
        split_seq(s.subrange(pos, s.len() as int), sep) == seq![s.subrange(pos, i)] + split_seq(
            s.subrange(i + sep.len(), s.len() as int),
            sep,
        ),
{
    let rest = s.subrange(pos, s.len() as int);
    assert forall|j: int| 0 <= j < i - pos implies !occurs_at(rest, sep, j) by {
        assert(!occurs_at(s, sep, j + pos));
        if occurs_at(rest, sep, j) {
            assert(rest.subrange(j, j + sep.len()) =~= s.subrange(j + pos, j + pos + sep.len()));
        }
    }
    assert(rest.subrange(i - pos, i - pos + sep.len()) =~= s.subrange(i, i + sep.len()));
    lemma_find_seq_first(rest, sep, i - pos);
    assert(rest.subrange(0, i - pos) =~= s.subrange(pos, i));
    assert(rest.subrange(i - pos + sep.len(), rest.len() as int) =~= s.subrange(
        i + sep.len(),
        s.len() as int,
    ));
}

/// The last piece of a split: no occurrence at or after `pos`.
pub proof fn lemma_split_last(s: Seq<char>, sep: Seq<char>, pos: int)
    requires
        sep.len() > 0,
        0 <= pos <= s.len(),
        forall|j: int| pos <= j ==> !occurs_at(s, sep, j),
    ensures
        split_seq(s.subrange(pos, s.len() as int), sep) == seq![s.subrange(pos, s.len() as int)],
{
    let rest = s.subrange(pos, s.len() as int);
    assert forall|j: int| !occurs_at(rest, sep, j) by {
        if occurs_at(rest, sep, j) {
            assert(rest.subrange(j, j + sep.len()) =~= s.subrange(j + pos, j + pos + sep.len()));
            assert(occurs_at(s, sep, j + pos));
        }
    }
    lemma_find_seq_none(rest, sep);
}

/// Splits `v` at every occurrence of the non-empty separator `sep`.
pub fn split(v: &[char], sep: &[char]) -> (r: Vec<Vec<char>>)
    requires
        sep@.len() > 0,
    ensures
        views(r@) == split_seq(v@, sep@),
{
    let mut out: Vec<Vec<char>> = Vec::new();
    let mut pos: usize = 0;
    let _n = v.len();
    let ghost s = v@;
    assert(s.subrange(0, s.len() as int) =~= s);
    loop
        invariant
            pos <= v@.len(),
            v@.len() <= usize::MAX,
            s == v@,
            sep@.len() > 0,
            split_seq(s, sep@) == views(out@) + split_seq(
                s.subrange(pos as int, s.len() as int),
                sep@,
            ),
        decreases v@.len() - pos,
    {
        match find_from(v, sep, pos) {
            Some(i) => {
                proof {
                    lemma_split_step(s, sep@, pos as int, i as int);
                }
                let piece = copy_range(v, pos, i);
                let ghost old_out = views(out@);
                out.push(piece);
                assert(views(out@) =~= old_out.push(s.subrange(pos as int, i as int)));
                assert(views(out@) + split_seq(s.subrange(i + sep@.len(), s.len() as int), sep@)
                    =~= old_out + (seq![s.subrange(pos as int, i as int)] + split_seq(
                    s.subrange(i + sep@.len(), s.len() as int),
                    sep@,
                )));
                assert(i + sep@.len() <= v@.len());
                pos = i + sep.len();
            },
            None => {
                proof {
                    lemma_split_last(s, sep@, pos as int);
                }
                let piece = copy_range(v, pos, v.len());
                let ghost old_out = views(out@);
                out.push(piece);
                assert(views(out@) =~= old_out + seq![s.subrange(pos as int, s.len() as int)]);
                return out;
            },
        }
    }
}

/// `str::split_once` with a single-character separator: the text before the
/// first `c`, and the text after it (if there is a `c`).
pub open spec fn split_once(s: Seq<char>, c: char) -> (Seq<char>, Option<Seq<char>>) {
    match find_seq(s, seq![c]) {
        Some(i) => (s.subrange(0, i), Some(s.subrange(i + 1, s.len() as int))),
        None => (s, None),
    }
}

/// Splits at the first `c` (`splitn(2, c)`).
pub fn split_once_char(v: &[char], c: char) -> (r: (Vec<char>, Option<Vec<char>>))
    ensures
        r.0@ == split_once(v@, c).0,
        match r.1 {
            Some(t) => split_once(v@, c).1 == Some(t@),
            None => split_once(v@, c).1 is None,
        },
{
    let sep = vec![c];
    let n = v.len();
    assert(sep@ =~= seq![c]);
    match find(v, sep.as_slice()) {
        Some(i) => {
            let a = copy_range(v, 0, i);
            let b = copy_range(v, i + 1, v.len());
            (a, Some(b))
        },
        None => {
            let a = copy_range(v, 0, v.len());
            assert(v@.subrange(0, v@.len() as int) =~= v@);
            (a, None)
        },
    }
}

} // verus!

verus! {

// ---------------------------------------------------------------------
// Case conversion
// ---------------------------------------------------------------------

/// Every character is ASCII.
pub open spec fn is_ascii_seq(s: Seq<char>) -> bool {
    forall|i: int| 0 <= i < s.len() ==> (#[trigger] s[i] as u32) < 128
}

pub open spec fn ascii_lower_char(c: char) -> char {
    if 65 <= (c as u32) <= 90 {
        ((c as u32) + 32) as char
    } else {
        c
    }
}

pub open spec fn ascii_upper_char(c: char) -> char {
    if 97 <= (c as u32) <= 122 {
        ((c as u32) - 32) as char
    } else {
        c
    }
}

pub open spec fn ascii_lower(s: Seq<char>) -> Seq<char> {
    s.map_values(|c: char| ascii_lower_char(c))
}

pub open spec fn ascii_upper(s: Seq<char>) -> Seq<char> {
    s.map_values(|c: char| ascii_upper_char(c))
}

/// What `str::to_lowercase` returns for `s` (full Unicode lower-casing).
pub uninterp spec fn lowercase(s: Seq<char>) -> Seq<char>;

/// What `str::to_uppercase` returns for `s` (full Unicode upper-casing).
pub uninterp spec fn uppercase(s: Seq<char>) -> Seq<char>;

/// `str::to_lowercase`. Its result is a function of `s` alone; on ASCII
/// text it maps `A`..`Z` to `a`..`z` and keeps every other character.
#[verifier::external_body]
pub(crate) fn to_lowercase(s: &str) -> (r: String)
    ensures
        r@ == lowercase(s@),
        is_ascii_seq(s@) ==> r@ == ascii_lower(s@),
{
    s.to_lowercase()
}

/// `str::to_uppercase`. Its result is a function of `s` alone; on ASCII
/// text it maps `a`..`z` to `A`..`Z` and keeps every other character.
#[verifier::external_body]
pub(crate) fn to_uppercase(s: &str) -> (r: String)
    ensures
        r@ == uppercase(s@),
        is_ascii_seq(s@) ==> r@ == ascii_upper(s@),
{
    s.to_uppercase()
}

// ---------------------------------------------------------------------
// Bytes and UTF-8
// ---------------------------------------------------------------------

/// What `String::from_utf8_lossy` returns for `b`: the decoded text, with
/// U+FFFD in place of each invalid sequence.
pub uninterp spec fn utf8_lossy(b: Seq<u8>) -> Seq<char>;

/// `String::from_utf8_lossy`. On valid UTF-8 it decodes exactly.
#[verifier::external_body]
pub(crate) fn lossy_string(b: &[u8]) -> (s: String)
    ensures
        s@ == utf8_lossy(b@),
        vstd::utf8::valid_utf8(b@) ==> s@ == vstd::utf8::decode_utf8(b@),
{
    String::from_utf8_lossy(b).to_string()
}

/// The UTF-8 encoding of a string as a vector of bytes.
pub fn utf8_bytes(s: &str) -> (b: Vec<u8>)
    ensures
        b@ == vstd::utf8::encode_utf8(s@),
{
    let bytes = s.as_bytes();
    copy_range(bytes, 0, bytes.len())
}

/// The UTF-8 encoding of a character sequence.
pub fn encode_chars(v: &[char]) -> (b: Vec<u8>)
    ensures
        b@ == vstd::utf8::encode_utf8(v@),
{
    let s = string_of(v);
    utf8_bytes(s.as_str())
}

} // verus!

verus! {

/// Splitting always yields at least one piece.
pub proof fn lemma_split_nonempty(s: Seq<char>, sep: Seq<char>)
    ensures
        split_seq(s, sep).len() >= 1,
    decreases s.len(),
{
    if sep.len() > 0 {
        match find_seq(s, sep) {
            Some(i) => {
                if 0 <= i && i + sep.len() <= s.len() {
                    lemma_split_nonempty(s.subrange(i + sep.len(), s.len() as int), sep);
                }
            },
            None => {},
        }
    }
}

/// `s` without one trailing `\r`.
pub open spec fn strip_cr(s: Seq<char>) -> Seq<char> {
    if s.len() > 0 && s.last() == '\r' {
        s.drop_last()
    } else {
        s
    }
}

/// `str::lines`: the pieces between `\n`s, each without one trailing `\r`
/// when a `\n` followed it; a final empty piece is not a line.
pub open spec fn lines_of(s: Seq<char>) -> Seq<Seq<char>> {
    let parts = split_seq(s, seq!['\n']);
    parts.drop_last().map_values(|p: Seq<char>| strip_cr(p)) + (if parts.last().len() == 0 {
        Seq::empty()
    } else {
        seq![parts.last()]
    })
}

/// Splits text into lines as `str::lines` does.
pub fn lines(v: &[char]) -> (r: Vec<Vec<char>>)
    ensures
        views(r@) == lines_of(v@),
{
    let nl = vec!['\n'];
    assert(nl@ =~= seq!['\n']);
    let parts = split(v, nl.as_slice());
    let ghost ps = views(parts@);
    proof {
        lemma_split_nonempty(v@, seq!['\n']);
    }
    let n = parts.len();
    let mut out: Vec<Vec<char>> = Vec::new();
    let mut i: usize = 0;
    while i + 1 < n
        invariant
            n == parts@.len() >= 1,
            ps == views(parts@),
            i + 1 <= n,
            views(out@) == ps.drop_last().subrange(0, i as int).map_values(|p: Seq<char>| strip_cr(p)),
        decreases n - i,
    {
        let p = &parts[i];
        let k = p.len();
        let piece = if k > 0 && p[k - 1] == '\r' {
            copy_range(p.as_slice(), 0, k - 1)
        } else {
            copy_range(p.as_slice(), 0, k)
        };
        assert(piece@ == strip_cr(ps[i as int])) by {
            assert(ps[i as int] == p@);
            if k > 0 && p@[k - 1] == '\r' {
                assert(p@.subrange(0, k - 1) =~= p@.drop_last());
            } else {
                assert(p@.subrange(0, k as int) =~= p@);
            }
        };
        let ghost before = views(out@);
        out.push(piece);
        assert(views(out@) =~= before.push(strip_cr(ps[i as int])));
        assert(ps.drop_last().subrange(0, i + 1) =~= ps.drop_last().subrange(0, i as int).push(ps[i as int]));
        i = i + 1;
    }
    assert(ps.drop_last().subrange(0, (n - 1) as int) =~= ps.drop_last());
    let last = &parts[n - 1];
    assert(last@ == ps.last());
    if last.len() > 0 {
        let ghost before = views(out@);
        let l = copy_range(last.as_slice(), 0, last.len());
        assert(last@.subrange(0, last@.len() as int) =~= last@);
        out.push(l);
        assert(views(out@) =~= before + seq![ps.last()]);
    } else {
        assert(views(out@) =~= views(out@) + Seq::<Seq<char>>::empty());
    }
    out
}

/// `str::trim_end_matches(suffix)`: strips trailing copies of a non-empty
/// `suffix` as long as there are any.
pub open spec fn trim_end_seq(s: Seq<char>, suffix: Seq<char>) -> Seq<char>
    decreases s.len(),
{
    if suffix.len() > 0 && has_suffix(s, suffix) {
        trim_end_seq(s.subrange(0, s.len() - suffix.len()), suffix)
    } else {
        s
    }
}

/// Strips trailing copies of `suffix`.
pub fn trim_end_matches(v: &[char], suffix: &[char]) -> (r: Vec<char>)
    ensures
        r@ == trim_end_seq(v@, suffix@),
{
    let mut j: usize = v.len();
    assert(v@.subrange(0, j as int) =~= v@);
    while suffix.len() > 0 && j >= suffix.len() && matches_at(v, suffix, j - suffix.len())
        invariant
            j <= v@.len(),
            trim_end_seq(v@, suffix@) == trim_end_seq(v@.subrange(0, j as int), suffix@),
        decreases j,
    {
        let ghost cur = v@.subrange(0, j as int);
        assert(cur.subrange(cur.len() - suffix@.len(), cur.len() as int) =~= v@.subrange(
            j - suffix@.len(),
            j as int,
        ));
        assert(cur.subrange(0, cur.len() - suffix@.len()) =~= v@.subrange(0, j - suffix@.len()));
        j = j - suffix.len();
    }
    proof {
        let cur = v@.subrange(0, j as int);
        if suffix@.len() > 0 && has_suffix(cur, suffix@) {
            assert(cur.subrange(cur.len() - suffix@.len(), cur.len() as int) =~= v@.subrange(
                j - suffix@.len(),
                j as int,
            ));
        }
    }
    copy_range(v, 0, j)
}

} // verus!
