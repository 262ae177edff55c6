//! `multipart/form-data` bodies.

use vstd::prelude::*;

use crate::text::{
    chars_of, copy_range, find, find_seq, has_prefix, is_ws, lemma_split_last, lemma_split_step,
    lines, lines_of, lossy_string, lowercase, occurs_at, trim_end, trim_end_char, trim_start,
    trim_start_char,
    push_all, split, split_seq, starts_with, string_of, to_lowercase, trim, trim_char,
    trim_char_chars, trim_chars, trim_end_matches, trim_end_seq, utf8_lossy, views,
};
use vstd::utf8::{decode_utf8, encode_utf8, is_char_boundary};

verus! {

/// A field of a multipart form submission.
#[derive(Debug, Clone)]
pub struct MultipartField {
    /// Field name from Content-Disposition.
    pub name: String,
    /// The file name the client gave (for file uploads).
    pub filename: Option<String>,
    /// MIME type of the field content.
    pub content_type: Option<String>,
    /// Raw field data.
    pub data: Vec<u8>,
}

/// A multipart field as values.
pub struct PartView {
    pub name: Seq<char>,
    pub filename: Option<Seq<char>>,
    pub content_type: Option<Seq<char>>,
    pub data: Seq<u8>,
}

pub open spec fn opt_chars(o: Option<String>) -> Option<Seq<char>> {
    match o {
        Some(s) => Some(s@),
        None => None,
    }
}

impl View for MultipartField {
    type V = PartView;

    open spec fn view(&self) -> PartView {
        PartView {
            name: self.name@,
            filename: opt_chars(self.filename),
            content_type: opt_chars(self.content_type),
            data: self.data@,
        }
    }
}

pub open spec fn parts_view(v: Seq<MultipartField>) -> Seq<PartView> {
    v.map_values(|f: MultipartField| f@)
}

/// The boundary of a multipart content type: the first `;`-separated
/// parameter that starts with `boundary=` (after trimming), without quotes.
pub open spec fn boundary_in(parts: Seq<Seq<char>>) -> Option<Seq<char>>
    decreases parts.len(),
{
    if parts.len() == 0 {
        None
    } else {
        let p = trim(parts[0]);
        if has_prefix(p, "boundary="@) {
            Some(trim_char(p.subrange("boundary="@.len() as int, p.len() as int), '"'))
        } else {
            boundary_in(parts.drop_first())
        }
    }
}

pub open spec fn boundary_of(content_type: Seq<char>) -> Option<Seq<char>> {
    boundary_in(split_seq(content_type, seq![';']))
}

/// What the header lines of one part have set so far.
pub struct PartHeaders {
    pub name: Seq<char>,
    pub filename: Option<Seq<char>>,
    pub content_type: Option<Seq<char>>,
}

/// One `Content-Disposition` parameter: `name=` sets the name, `filename=`
/// the file name (quotes removed).
pub open spec fn disposition_param(st: PartHeaders, param: Seq<char>) -> PartHeaders {
    let p = trim(param);
    if has_prefix(p, "name="@) {
        PartHeaders { name: trim_char(p.subrange("name="@.len() as int, p.len() as int), '"'), ..st }
    } else if has_prefix(p, "filename="@) {
        PartHeaders {
            filename: Some(trim_char(p.subrange("filename="@.len() as int, p.len() as int), '"')),
            ..st
        }
    } else {
        st
    }
}

pub open spec fn disposition_params(st: PartHeaders, params: Seq<Seq<char>>) -> PartHeaders
    decreases params.len(),
{
    if params.len() == 0 {
        st
    } else {
        disposition_param(disposition_params(st, params.drop_last()), params.last())
    }
}

/// The text of a line after its first 13 bytes (the length of
/// `content-type:`), when byte 13 starts a character.
pub open spec fn after_13_bytes(line: Seq<char>) -> Seq<char> {
    let b = encode_utf8(line);
    if is_char_boundary(b, 13) {
        decode_utf8(b.subrange(13, b.len() as int))
    } else {
        Seq::empty()
    }
}

/// One header line of a part.
pub open spec fn part_header_line(st: PartHeaders, raw: Seq<char>) -> PartHeaders {
    let line = trim(raw);
    let low = lowercase(line);
    if has_prefix(low, "content-disposition:"@) {
        disposition_params(st, split_seq(line, seq![';']))
    } else if has_prefix(low, "content-type:"@) {
        PartHeaders { content_type: Some(trim(after_13_bytes(line))), ..st }
    } else {
        st
    }
}

pub open spec fn part_header_lines(st: PartHeaders, ls: Seq<Seq<char>>) -> PartHeaders
    decreases ls.len(),
{
    if ls.len() == 0 {
        st
    } else {
        part_header_line(part_header_lines(st, ls.drop_last()), ls.last())
    }
}

pub open spec fn no_headers() -> PartHeaders {
    PartHeaders { name: Seq::empty(), filename: None, content_type: None }
}

/// One piece between delimiters: trimmed, it must be neither empty nor
/// `--`, must hold a blank line ending its headers, and must name a field.
pub open spec fn part_step(fields: Seq<PartView>, piece: Seq<char>) -> Seq<PartView> {
    let part = trim(piece);
    if part.len() == 0 || part == "--"@ {
        fields
    } else {
        match find_seq(part, "\r\n\r\n"@) {
            None => fields,
            Some(he) => {
                let st = part_header_lines(no_headers(), lines_of(part.subrange(0, he)));
                let data = trim_end_seq(
                    part.subrange(he + "\r\n\r\n"@.len(), part.len() as int),
                    "\r\n"@,
                );
                if st.name.len() == 0 {
                    fields
                } else {
                    fields.push(
                        PartView {
                            name: st.name,
                            filename: st.filename,
                            content_type: st.content_type,
                            data: encode_utf8(data),
                        },
                    )
                }
            },
        }
    }
}

pub open spec fn part_steps(pieces: Seq<Seq<char>>) -> Seq<PartView>
    decreases pieces.len(),
{
    if pieces.len() == 0 {
        Seq::empty()
    } else {
        part_step(part_steps(pieces.drop_last()), pieces.last())
    }
}

/// The fields of a multipart body delimited by `--boundary`.
pub open spec fn multipart_fields(boundary: Seq<char>, body: Seq<u8>) -> Seq<PartView> {
    part_steps(split_seq(utf8_lossy(body), "--"@ + boundary))
}

/// Finds the boundary parameter of a content type.
pub fn find_boundary(content_type: &str) -> (r: Option<String>)
    ensures
        match r {
            Some(b) => boundary_of(content_type@) == Some(b@),
            None => boundary_of(content_type@) is None,
        },
{
    let v = chars_of(content_type);
    let semi = vec![';'];
    assert(semi@ =~= seq![';']);
    let parts = split(v.as_slice(), semi.as_slice());
    let ghost ps = views(parts@);
    let prefix = chars_of("boundary=");
    let mut i: usize = 0;
    assert(ps.subrange(0, ps.len() as int) =~= ps);
    while i < parts.len()
        invariant
            i <= parts@.len(),
            ps == views(parts@),
            boundary_of(content_type@) == boundary_in(ps),
            prefix@ == "boundary="@,
            boundary_in(ps) == boundary_in(ps.subrange(i as int, ps.len() as int)),
        decreases parts@.len() - i,
    {
        let p = trim_chars(parts[i].as_slice());
        assert(ps.subrange(i as int, ps.len() as int)[0] == ps[i as int]);
        if starts_with(p.as_slice(), prefix.as_slice()) {
            let rest = copy_range(p.as_slice(), prefix.len(), p.len());
            let b = trim_char_chars(rest.as_slice(), '"');
            assert(boundary_in(ps.subrange(i as int, ps.len() as int)) == Some(b@));
            return Some(string_of(b.as_slice()));
        }
        assert(ps.subrange(i as int, ps.len() as int).drop_first() =~= ps.subrange(i + 1, ps.len() as int));
        i = i + 1;
    }
    None
}

/// Applies one `Content-Disposition` parameter.
fn apply_param(
    name: &mut Vec<char>,
    filename: &mut Option<Vec<char>>,
    ct: &Option<Vec<char>>,
    param: &[char],
)
    ensures
        ({
            let st = disposition_param(
                PartHeaders { name: old(name)@, filename: opt_seq(*old(filename)), content_type: opt_seq(*ct) },
                param@,
            );
            &&& final(name)@ == st.name
            &&& opt_seq(*final(filename)) == st.filename
        }),
{
    let p = trim_chars(param);
    let np = chars_of("name=");
    let fp = chars_of("filename=");
    if starts_with(p.as_slice(), np.as_slice()) {
        let rest = copy_range(p.as_slice(), np.len(), p.len());
        *name = trim_char_chars(rest.as_slice(), '"');
    } else if starts_with(p.as_slice(), fp.as_slice()) {
        let rest = copy_range(p.as_slice(), fp.len(), p.len());
        *filename = Some(trim_char_chars(rest.as_slice(), '"'));
    }
}

pub open spec fn opt_seq(o: Option<Vec<char>>) -> Option<Seq<char>> {
    match o {
        Some(v) => Some(v@),
        None => None,
    }
}

/// The text after the first 13 bytes of `line`, or nothing when byte 13 is
/// inside a character.
fn after_13(line: &[char]) -> (r: Vec<char>)
    ensures
        r@ == after_13_bytes(line@),
{
    let s = string_of(line);
    let st = s.as_str();
    if st.is_char_boundary(13) {
        let (_, rest) = st.split_at(13);
        proof {
            vstd::utf8::encode_utf8_decode_utf8(rest@);
        }
        chars_of(rest)
    } else {
        Vec::new()
    }
}

/// Applies one header line of a part.
fn apply_header_line(
    name: &mut Vec<char>,
    filename: &mut Option<Vec<char>>,
    ct: &mut Option<Vec<char>>,
    raw: &[char],
)
    ensures
        ({
            let st = part_header_line(
                PartHeaders { name: old(name)@, filename: opt_seq(*old(filename)), content_type: opt_seq(*old(ct)) },
                raw@,
            );
            &&& final(name)@ == st.name
            &&& opt_seq(*final(filename)) == st.filename
            &&& opt_seq(*final(ct)) == st.content_type
        }),
{
    let line = trim_chars(raw);
    let line_s = string_of(line.as_slice());
    let low_s = to_lowercase(line_s.as_str());
    let low = chars_of(low_s.as_str());
    let cd = chars_of("content-disposition:");
    let ctp = chars_of("content-type:");
    if starts_with(low.as_slice(), cd.as_slice()) {
        let semi = vec![';'];
        assert(semi@ =~= seq![';']);
        let params = split(line.as_slice(), semi.as_slice());
        let ghost ps = views(params@);
        let ghost st0 = PartHeaders { name: name@, filename: opt_seq(*filename), content_type: opt_seq(*ct) };
        let mut i: usize = 0;
        while i < params.len()
            invariant
                i <= params@.len(),
                ps == views(params@),
                opt_seq(*ct) == st0.content_type,
                ({
                    let st = disposition_params(st0, ps.subrange(0, i as int));
                    &&& name@ == st.name
                    &&& opt_seq(*filename) == st.filename
                    &&& st.content_type == st0.content_type
                }),
            decreases params@.len() - i,
        {
            apply_param(name, filename, ct, params[i].as_slice());
            assert(ps.subrange(0, i + 1).drop_last() =~= ps.subrange(0, i as int));
            i = i + 1;
        }
        assert(ps.subrange(0, params@.len() as int) =~= ps);
    } else if starts_with(low.as_slice(), ctp.as_slice()) {
        let rest = after_13(line.as_slice());
        *ct = Some(trim_chars(rest.as_slice()));
    }
}

/// Processes one piece between delimiters, adding its field if it has one.
fn add_part(fields: &mut Vec<MultipartField>, piece: &[char])
    ensures
        parts_view(final(fields)@) == part_step(parts_view(old(fields)@), piece@),
{
    let part = trim_chars(piece);
    let dd = chars_of("--");
    if part.len() == 0 || crate::text::chars_eq(part.as_slice(), dd.as_slice()) {
        return;
    }
    let sep = chars_of("\r\n\r\n");
    match find(part.as_slice(), sep.as_slice()) {
        None => {},
        Some(he) => {
            let head = copy_range(part.as_slice(), 0, he);
            let tail = copy_range(part.as_slice(), he + sep.len(), part.len());
            let crlf = chars_of("\r\n");
            let data = trim_end_matches(tail.as_slice(), crlf.as_slice());
            let ls = lines(head.as_slice());
            let ghost lsv = views(ls@);
            let mut name: Vec<char> = Vec::new();
            let mut filename: Option<Vec<char>> = None;
            let mut ct: Option<Vec<char>> = None;
            let mut i: usize = 0;
            assert(part_header_lines(no_headers(), lsv.subrange(0, 0)) == no_headers());
            assert(name@ =~= Seq::<char>::empty());
            while i < ls.len()
                invariant
                    i <= ls@.len(),
                    lsv == views(ls@),
                    ({
                        let st = part_header_lines(no_headers(), lsv.subrange(0, i as int));
                        &&& name@ == st.name
                        &&& opt_seq(filename) == st.filename
                        &&& opt_seq(ct) == st.content_type
                    }),
                decreases ls@.len() - i,
            {
                apply_header_line(&mut name, &mut filename, &mut ct, ls[i].as_slice());
                assert(lsv.subrange(0, i + 1).drop_last() =~= lsv.subrange(0, i as int));
                i = i + 1;
            }
            assert(lsv.subrange(0, ls@.len() as int) =~= lsv);
            if name.len() > 0 {
                let field = MultipartField {
                    name: string_of(name.as_slice()),
                    filename: match &filename {
                        Some(f) => Some(string_of(f.as_slice())),
                        None => None,
                    },
                    content_type: match &ct {
                        Some(c) => Some(string_of(c.as_slice())),
                        None => None,
                    },
                    data: crate::text::encode_chars(data.as_slice()),
                };
                let ghost before = parts_view(fields@);
                fields.push(field);
                assert(parts_view(fields@) =~= before.push(field@));
            }
        },
    }
}

/// Parses the fields of a multipart body delimited by `--boundary`.
pub fn parse_multipart_fields(boundary: &str, body: &[u8]) -> (r: Vec<MultipartField>)
    ensures
        parts_view(r@) == multipart_fields(boundary@, body@),
{
    let text = lossy_string(body);
    let tv = chars_of(text.as_str());
    let mut delim = chars_of("--");
    let bv = chars_of(boundary);
    push_all(&mut delim, bv.as_slice());
    proof {
        reveal_strlit("--");
    }
    let pieces = split(tv.as_slice(), delim.as_slice());
    let ghost ps = views(pieces@);
    let mut fields: Vec<MultipartField> = Vec::new();
    let mut i: usize = 0;
    assert(parts_view(fields@) =~= Seq::<PartView>::empty());
    while i < pieces.len()
        invariant
            i <= pieces@.len(),
            ps == views(pieces@),
            parts_view(fields@) == part_steps(ps.subrange(0, i as int)),
        decreases pieces@.len() - i,
    {
        add_part(&mut fields, pieces[i].as_slice());
        assert(ps.subrange(0, i + 1).drop_last() =~= ps.subrange(0, i as int));
        i = i + 1;
    }
    assert(ps.subrange(0, pieces@.len() as int) =~= ps);
    fields
}

} // verus!

verus! {

/// The boundary a multipart content type names when its parameter value
/// `v` (after `boundary=`) holds no `;` and does not end in whitespace:
/// `v` without surrounding quotes.
proof fn lemma_boundary_value(v: Seq<char>)
    requires
        v.len() > 0,
        forall|i: int| 0 <= i < v.len() ==> #[trigger] v[i] != ';',
        !is_ws(v.last()),
    ensures
        boundary_of("multipart/form-data; boundary="@ + v) == Some(trim_char(v, '"')),
{
    reveal_strlit("multipart/form-data; boundary=");
    reveal_strlit("boundary=");
    let lit = "multipart/form-data; boundary="@;
    let s = lit + v;
    let sep = seq![';'];
    let m = s.subrange(0, 19);
    let r = s.subrange(20, s.len() as int);
    assert(s.subrange(19, 20) =~= sep);
    assert(occurs_at(s, sep, 19));
    assert forall|j: int| 0 <= j < 19 implies !occurs_at(s, sep, j) by {
        assert(s.subrange(j, j + 1)[0] == s[j]);
    }
    lemma_split_step(s, sep, 0, 19);
    assert forall|j: int| 20 <= j implies !occurs_at(s, sep, j) by {
        if occurs_at(s, sep, j) {
            assert(s.subrange(j, j + 1)[0] == s[j]);
            if j >= 30 {
                assert(s[j] == v[j - 30]);
            }
        }
    }
    lemma_split_last(s, sep, 20);
    assert(s.subrange(0, s.len() as int) =~= s);
    assert(s.subrange(0, 19) =~= m);
    let parts = split_seq(s, sep);
    assert(parts =~= seq![m, r]);
    // The first part is the media type, with no boundary in it.
    assert(!is_ws(m[0]) && !is_ws(m.last()));
    assert(trim_start(m) == m);
    assert(trim_end(m) == m);
    assert(trim(m) == m);
    assert(!has_prefix(m, "boundary="@)) by {
        assert(m.subrange(0, 9)[0] == 'm');
    }
    assert(parts.drop_first() =~= seq![r]);
    // The second part is ` boundary=` and the value.
    let t = r.drop_first();
    assert(t =~= "boundary="@ + v);
    assert(is_ws(r[0]));
    assert(!is_ws(t[0]));
    assert(trim_start(t) == t);
    assert(trim_start(r) == t);
    assert(t.last() == v.last());
    assert(trim_end(t) == t);
    assert(trim(r) == t);
    assert(t.subrange(0, 9) =~= "boundary="@);
    assert(t.subrange(9, t.len() as int) =~= v);
    assert(seq![r].drop_first() =~= Seq::<Seq<char>>::empty());
    assert(seq![r][0] == r);
    assert(boundary_in(seq![r]) == Some(trim_char(v, '"')));
    assert(parts[0] == m);
    assert(boundary_in(parts) == boundary_in(seq![r]));
}

/// The boundary parameter of a multipart content type may be quoted or
/// not: for a plain token `B` (no quotes, `;` or whitespace),
/// `boundary=B` and `boundary="B"` both give `B`.
pub proof fn law_boundary_quotes_optional(b: Seq<char>)
    requires
        b.len() > 0,
        forall|i: int| 0 <= i < b.len() ==> #[trigger] b[i] != ';' && b[i] != '"' && !is_ws(b[i]),
    ensures
        boundary_of("multipart/form-data; boundary="@ + b) == Some(b),
        boundary_of("multipart/form-data; boundary="@ + seq!['"'] + b + seq!['"']) == Some(b),
{
    assert(!is_ws(b[b.len() - 1]));
    lemma_boundary_value(b);
    assert(trim_start_char(b, '"') == b);
    assert(trim_end_char(b, '"') == b);
    let q = seq!['"'] + b + seq!['"'];
    assert forall|i: int| 0 <= i < q.len() implies #[trigger] q[i] != ';' by {
        if 0 < i < q.len() - 1 {
            assert(q[i] == b[i - 1]);
        }
    }
    assert(q.last() == '"');
    lemma_boundary_value(q);
    assert(q.drop_first() =~= b + seq!['"']);
    assert(trim_start_char(q, '"') == trim_start_char(b + seq!['"'], '"'));
    assert((b + seq!['"'])[0] == b[0]);
    assert(trim_start_char(b + seq!['"'], '"') == b + seq!['"']);
    assert((b + seq!['"']).drop_last() =~= b);
    assert(trim_end_char(b + seq!['"'], '"') == trim_end_char(b, '"'));
    assert(("multipart/form-data; boundary="@ + seq!['"'] + b + seq!['"']) =~= ("multipart/form-data; boundary="@ + q));
}

} // verus!
