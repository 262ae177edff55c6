//! WebSocket support: the upgrade handshake, and frames in both
//! directions. Frames the server writes are never masked; frames it reads
//! may be.

use base64::Engine;
use sha1::Digest;
use vstd::prelude::*;

use crate::decimal::{decimal, push_decimal};
use crate::error::Error;
use crate::text::{chars_of, copy_range, encode_chars, lossy_string, push_all, trim, trim_chars, utf8_lossy};
use vstd::utf8::encode_utf8;

verus! {

// ---------------------------------------------------------------------
// Handshake
// ---------------------------------------------------------------------

/// The GUID that is appended to the client's key in the handshake, as this
/// server has it.
pub open spec fn ws_magic() -> Seq<char> {
    "258EAFA5-E914-47DA-95CA-C5AB0DC85B11"@
}

/// What SHA-1 gives for `data`: the 20-byte digest.
pub uninterp spec fn sha1_of(data: Seq<u8>) -> Seq<u8>;

/// `sha1::Sha1` over `data` (`new`, `update`, `finalize`): the SHA-1 digest
/// of the bytes, 20 bytes long.
#[verifier::external_body]
fn sha1_digest(data: &[u8]) -> (d: Vec<u8>)
    ensures
        d@ == sha1_of(data@),
        d@.len() == 20,
{
    let mut hasher = sha1::Sha1::new();
    hasher.update(data);
    hasher.finalize().to_vec()
}

/// The character of a 6-bit value in the standard base64 alphabet.
pub open spec fn b64_char(v: int) -> char {
    if v < 26 {
        ((65 + v) as u8) as char
    } else if v < 52 {
        ((97 + v - 26) as u8) as char
    } else if v < 62 {
        ((48 + v - 52) as u8) as char
    } else if v == 62 {
        '+'
    } else {
        '/'
    }
}

/// Standard base64 with `=` padding: each 3 bytes become 4 characters.
pub open spec fn base64_std(s: Seq<u8>) -> Seq<char>
    decreases s.len(),
{
    if s.len() == 0 {
        Seq::empty()
    } else if s.len() == 1 {
        let a = s[0] as int;
        seq![b64_char(a / 4), b64_char((a % 4) * 16), '=', '=']
    } else if s.len() == 2 {
        let a = s[0] as int;
        let b = s[1] as int;
        seq![b64_char(a / 4), b64_char((a % 4) * 16 + b / 16), b64_char((b % 16) * 4), '=']
    } else {
        let a = s[0] as int;
        let b = s[1] as int;
        let c = s[2] as int;
        seq![b64_char(a / 4), b64_char((a % 4) * 16 + b / 16), b64_char((b % 16) * 4 + c / 64), b64_char(c % 64)]
            + base64_std(s.subrange(3, s.len() as int))
    }
}

/// `base64::engine::general_purpose::STANDARD.encode`: standard base64
/// with padding.
#[verifier::external_body]
fn base64_encode(data: &[u8]) -> (s: String)
    ensures
        s@ == base64_std(data@),
{
    base64::engine::general_purpose::STANDARD.encode(data)
}

/// The accept key answered to a client key: base64 of the SHA-1 of the
/// trimmed key followed by the GUID.
pub open spec fn accept_key(client_key: Seq<char>) -> Seq<char> {
    base64_std(sha1_of(encode_utf8(trim(client_key) + ws_magic())))
}

/// The response that accepts an upgrade.
pub open spec fn handshake_text(client_key: Seq<char>) -> Seq<char> {
    "HTTP/1.1 101 Switching Protocols\r\nUpgrade: websocket\r\nConnection: Upgrade\r\nSec-WebSocket-Accept: "@
        + accept_key(client_key) + "\r\n\r\n"@
}

// ---------------------------------------------------------------------
// Frames
// ---------------------------------------------------------------------

/// `n` as `k` big-endian bytes (the low `k` bytes of `n`).
pub open spec fn be_bytes(n: nat, k: nat) -> Seq<u8>
    decreases k,
{
    if k == 0 {
        Seq::empty()
    } else {
        be_bytes(n / 256, (k - 1) as nat).push((n % 256) as u8)
    }
}

/// The number that big-endian bytes stand for.
pub open spec fn be_value(s: Seq<u8>) -> nat
    decreases s.len(),
{
    if s.len() == 0 {
        0
    } else {
        (be_value(s.drop_last()) * 256 + s.last()) as nat
    }
}

/// 256 to the power `k`.
pub open spec fn pow256(k: nat) -> nat
    decreases k,
{
    if k == 0 {
        1
    } else {
        256 * pow256((k - 1) as nat)
    }
}

/// The length field of a frame: one byte below 126, else 126 and two
/// bytes, else 127 and eight bytes.
pub open spec fn len_bytes(n: nat) -> Seq<u8> {
    if n < 126 {
        seq![n as u8]
    } else if n <= 65535 {
        seq![126u8] + be_bytes(n, 2)
    } else {
        seq![127u8] + be_bytes(n, 8)
    }
}

/// A final, unmasked frame.
pub open spec fn frame_bytes(opcode: u8, payload: Seq<u8>) -> Seq<u8> {
    seq![0x80u8 | opcode] + len_bytes(payload.len()) + payload
}

/// A masked payload read back: each byte XORed with the key byte at its
/// position modulo 4.
pub open spec fn unmasked(raw: Seq<u8>, key: Seq<u8>) -> Seq<u8> {
    Seq::new(raw.len(), |i: int| raw[i] ^ key[i % 4])
}

/// The number of extended length bytes a length code asks for.
pub open spec fn ext_size(code: u8) -> nat {
    if code == 126 {
        2
    } else if code == 127 {
        8
    } else {
        0
    }
}

/// A frame at the start of `data`: its opcode, its (unmasked) payload and
/// how many bytes it takes; `None` while `data` holds less than a frame.
pub open spec fn decoded(data: Seq<u8>) -> Option<(u8, Seq<u8>, nat)> {
    if data.len() < 2 {
        None
    } else {
        let op = data[0] & 0x0Fu8;
        let masked = data[1] & 0x80u8 != 0;
        let code = data[1] & 0x7Fu8;
        let ext = ext_size(code) as int;
        let mlen: int = if masked {
            4
        } else {
            0
        };
        if data.len() < 2 + ext + mlen {
            None
        } else {
            let len: int = if ext == 0 {
                code as int
            } else {
                be_value(data.subrange(2, 2 + ext)) as int
            };
            let start = 2 + ext + mlen;
            if data.len() < start + len {
                None
            } else {
                let raw = data.subrange(start, start + len);
                let payload = if masked {
                    unmasked(raw, data.subrange(2 + ext, 2 + ext + 4))
                } else {
                    raw
                };
                Some((op, payload, (start + len) as nat))
            }
        }
    }
}

/// Big-endian bytes give back the number they were made from.
pub proof fn lemma_be_roundtrip(n: nat, k: nat)
    requires
        n < pow256(k),
    ensures
        be_bytes(n, k).len() == k,
        be_value(be_bytes(n, k)) == n,
    decreases k,
{
    if k > 0 {
        assert(n / 256 < pow256((k - 1) as nat)) by (nonlinear_arith)
            requires
                n < 256 * pow256((k - 1) as nat),
        ;
        lemma_be_roundtrip(n / 256, (k - 1) as nat);
        let b = be_bytes(n, k);
        assert(b.drop_last() == be_bytes(n / 256, (k - 1) as nat));
        assert((n / 256) * 256 + n % 256 == n) by (nonlinear_arith);
    } else {
        assert(n == 0);
    }
}

/// The value of `k` bytes is below `256^k`.
pub proof fn lemma_be_value_bound(s: Seq<u8>)
    ensures
        be_value(s) < pow256(s.len()),
    decreases s.len(),
{
    if s.len() > 0 {
        lemma_be_value_bound(s.drop_last());
        let v = be_value(s.drop_last());
        let p = pow256((s.len() - 1) as nat);
        assert(v * 256 + s.last() < 256 * p) by (nonlinear_arith)
            requires
                v < p,
                s.last() < 256,
        ;
    }
}

proof fn lemma_pow256_8()
    ensures
        pow256(2) == 65536,
        pow256(8) == 0x1_0000_0000_0000_0000,
{
    reveal_with_fuel(pow256, 9);
}

/// A frame the server writes is final and unmasked, and decodes to its
/// opcode and payload whatever follows it: frames delimit themselves.
pub proof fn law_frame_roundtrip(opcode: u8, payload: Seq<u8>, rest: Seq<u8>)
    requires
        opcode < 16,
        payload.len() <= u64::MAX,
    ensures
        frame_bytes(opcode, payload)[0] & 0x80u8 == 0x80u8,
        frame_bytes(opcode, payload)[1] & 0x80u8 == 0,
        decoded(frame_bytes(opcode, payload) + rest) == Some(
            (opcode, payload, frame_bytes(opcode, payload).len()),
        ),
{
    let f = frame_bytes(opcode, payload);
    let d = f + rest;
    let n = payload.len() as int;
    lemma_pow256_8();
    assert((0x80u8 | opcode) & 0x0Fu8 == opcode && (0x80u8 | opcode) & 0x80u8 == 0x80u8) by (bit_vector)
        requires
            opcode < 16,
    ;
    assert(d[0] == 0x80u8 | opcode);
    
    if n < 126 {
        let b = n as u8;
        assert(b & 0x80u8 == 0 && b & 0x7Fu8 == b) by (bit_vector)
            requires
                b < 126,
        ;
        assert(d[1] == b);
        assert(d.subrange(2, 2 + n) =~= payload);
    } else if n <= 65535 {
        assert(126u8 & 0x80u8 == 0 && 126u8 & 0x7Fu8 == 126u8) by (bit_vector);
        lemma_be_roundtrip(n as nat, 2);
        assert(d[1] == 126u8);
        assert(d.subrange(2, 4) =~= be_bytes(n as nat, 2));
        assert(d.subrange(4, 4 + n) =~= payload);
    } else {
        assert(127u8 & 0x80u8 == 0 && 127u8 & 0x7Fu8 == 127u8) by (bit_vector);
        lemma_be_roundtrip(n as nat, 8);
        assert(d[1] == 127u8);
        assert(d.subrange(2, 10) =~= be_bytes(n as nat, 8));
        assert(d.subrange(10, 10 + n) =~= payload);
    }
}

/// WebSocket message types.
#[derive(Debug, Clone)]
pub enum Message {
    /// Text message (UTF-8).
    Text(String),
    /// Binary message.
    Binary(Vec<u8>),
    /// Ping (heartbeat request).
    Ping(Vec<u8>),
    /// Pong (heartbeat response).
    Pong(Vec<u8>),
    /// Connection close.
    Close,
}

/// What a message holds.
pub enum MessageView {
    Text(Seq<char>),
    Binary(Seq<u8>),
    Ping(Seq<u8>),
    Pong(Seq<u8>),
    Close,
}

impl View for Message {
    type V = MessageView;

    open spec fn view(&self) -> MessageView {
        match self {
            Message::Text(s) => MessageView::Text(s@),
            Message::Binary(b) => MessageView::Binary(b@),
            Message::Ping(b) => MessageView::Ping(b@),
            Message::Pong(b) => MessageView::Pong(b@),
            Message::Close => MessageView::Close,
        }
    }
}

/// What a frame means: a message, nothing (a continuation frame, which is
/// ignored), or the text of an error for an unknown opcode.
pub open spec fn frame_result(opcode: u8, payload: Seq<u8>) -> Result<Option<MessageView>, Seq<char>> {
    if opcode == 1 {
        Ok(Some(MessageView::Text(payload_text(payload))))
    } else if opcode == 2 {
        Ok(Some(MessageView::Binary(payload)))
    } else if opcode == 8 {
        Ok(Some(MessageView::Close))
    } else if opcode == 9 {
        Ok(Some(MessageView::Ping(payload)))
    } else if opcode == 10 {
        Ok(Some(MessageView::Pong(payload)))
    } else if opcode == 0 {
        Ok(None)
    } else {
        Err("Unknown opcode: "@ + decimal(opcode as nat))
    }
}

/// The text of a text frame's payload: its UTF-8 decoding when valid,
/// else the lossy decoding.
pub open spec fn payload_text(payload: Seq<u8>) -> Seq<char> {
    if vstd::utf8::valid_utf8(payload) {
        vstd::utf8::decode_utf8(payload)
    } else {
        utf8_lossy(payload)
    }
}

/// The frame sent back on reading a frame: a close frame answers a close,
/// a pong with the same payload answers a ping.
pub open spec fn reply_bytes(opcode: u8, payload: Seq<u8>) -> Seq<u8> {
    if opcode == 8 {
        frame_bytes(8, Seq::empty())
    } else if opcode == 9 {
        frame_bytes(10, payload)
    } else {
        Seq::empty()
    }
}

/// Whether a result agrees with what a frame means.
pub open spec fn result_is(r: Result<Option<Message>, Error>, want: Result<Option<MessageView>, Seq<char>>) -> bool {
    match want {
        Ok(Some(m)) => r matches Ok(Some(x)) && x@ == m,
        Ok(None) => r matches Ok(None),
        Err(t) => r matches Err(Error::WebSocket(s)) && s@ == t,
    }
}

/// Appends `n` as `k` big-endian bytes.
fn push_be(out: &mut Vec<u8>, n: u64, k: usize)
    ensures
        final(out)@ == old(out)@ + be_bytes(n as nat, k as nat),
    decreases k,
{
    if k > 0 {
        push_be(out, n / 256, k - 1);
        out.push((n % 256) as u8);
        assert(be_bytes(n as nat, k as nat) == be_bytes((n / 256) as nat, (k - 1) as nat).push((n % 256) as u8));
        assert(final(out)@ =~= old(out)@ + be_bytes(n as nat, k as nat));
    } else {
        assert(final(out)@ =~= old(out)@ + be_bytes(n as nat, k as nat));
    }
}

/// Encodes a final, unmasked frame.
pub fn encode_frame(opcode: u8, payload: &[u8]) -> (f: Vec<u8>)
    ensures
        f@ == frame_bytes(opcode, payload@),
{
    let mut frame: Vec<u8> = Vec::new();
    frame.push(0x80u8 | opcode);
    let len = payload.len();
    if len < 126 {
        frame.push(len as u8);
    } else if len <= 65535 {
        frame.push(126);
        push_be(&mut frame, len as u64, 2);
    } else {
        frame.push(127);
        push_be(&mut frame, len as u64, 8);
    }
    let ghost head = frame@;
    assert(head =~= seq![0x80u8 | opcode] + len_bytes(len as nat));
    let mut i: usize = 0;
    while i < len
        invariant
            i <= len == payload@.len(),
            frame@ == head + payload@.subrange(0, i as int),
        decreases len - i,
    {
        frame.push(payload[i]);
        assert(payload@.subrange(0, i + 1) =~= payload@.subrange(0, i as int).push(payload@[i as int]));
        i = i + 1;
    }
    assert(payload@.subrange(0, len as int) =~= payload@);
    frame
}

/// The number that up to eight big-endian bytes stand for.
fn be_number(bytes: &[u8]) -> (v: u64)
    requires
        bytes@.len() <= 8,
    ensures
        v == be_value(bytes@),
{
    let mut v: u64 = 0;
    let mut i: usize = 0;
    while i < bytes.len()
        invariant
            i <= bytes@.len() <= 8,
            v == be_value(bytes@.subrange(0, i as int)),
        decreases bytes@.len() - i,
    {
        let ghost pre = bytes@.subrange(0, i + 1);
        assert(pre.drop_last() =~= bytes@.subrange(0, i as int));
        proof {
            lemma_be_value_bound(pre);
            lemma_pow256_8();
            lemma_pow256_mono((i + 1) as nat, 8);
        }
        v = v * 256 + bytes[i] as u64;
        i = i + 1;
    }
    assert(bytes@.subrange(0, bytes@.len() as int) =~= bytes@);
    v
}

proof fn lemma_pow256_mono(a: nat, b: nat)
    requires
        a <= b,
    ensures
        pow256(a) <= pow256(b),
    decreases b,
{
    if a < b {
        lemma_pow256_mono(a, (b - 1) as nat);
    }
}

/// XORs each byte of `raw` with the key byte at its position modulo 4.
fn unmask(raw: &[u8], key: &[u8]) -> (p: Vec<u8>)
    requires
        key@.len() == 4,
    ensures
        p@ == unmasked(raw@, key@),
{
    let mut p: Vec<u8> = Vec::new();
    let mut i: usize = 0;
    while i < raw.len()
        invariant
            i <= raw@.len(),
            key@.len() == 4,
            p@.len() == i,
            forall|j: int| 0 <= j < i ==> p@[j] == raw@[j] ^ key@[j % 4],
        decreases raw@.len() - i,
    {
        p.push(raw[i] ^ key[i % 4]);
        i = i + 1;
    }
    assert(p@ =~= unmasked(raw@, key@));
    p
}

/// Decodes the frame at the start of `data`: its opcode, its payload
/// (unmasked) and its length in bytes; `None` while `data` holds less than
/// a whole frame.
pub fn decode_frame(data: &[u8]) -> (r: Option<(u8, Vec<u8>, usize)>)
    ensures
        match r {
            Some((op, p, n)) => decoded(data@) == Some((op, p@, n as nat)),
            None => decoded(data@) is None,
        },
{
    let total = data.len();
    if total < 2 {
        return None;
    }
    let op = data[0] & 0x0F;
    let masked = data[1] & 0x80 != 0;
    let code = data[1] & 0x7F;
    let ext: usize = if code == 126 {
        2
    } else if code == 127 {
        8
    } else {
        0
    };
    let mlen: usize = if masked {
        4
    } else {
        0
    };
    if total - 2 < ext + mlen {
        return None;
    }
    let len: u64 = if ext == 0 {
        code as u64
    } else {
        let ext_bytes = copy_range(data, 2, 2 + ext);
        be_number(ext_bytes.as_slice())
    };
    let start = 2 + ext + mlen;
    if ((total - start) as u64) < len {
        return None;
    }
    let end = start + len as usize;
    let raw = copy_range(data, start, end);
    let payload = if masked {
        let key = copy_range(data, 2 + ext, 2 + ext + 4);
        unmask(raw.as_slice(), key.as_slice())
    } else {
        raw
    };
    Some((op, payload, end))
}

/// What reading a frame gives: the message (or nothing, or the error) it
/// stands for.
pub fn message_for(opcode: u8, payload: Vec<u8>) -> (r: Result<Option<Message>, Error>)
    ensures
        result_is(r, frame_result(opcode, payload@)),
{
    if opcode == 1 {
        Ok(Some(Message::Text(lossy_string(payload.as_slice()))))
    } else if opcode == 2 {
        Ok(Some(Message::Binary(payload)))
    } else if opcode == 8 {
        Ok(Some(Message::Close))
    } else if opcode == 9 {
        Ok(Some(Message::Ping(payload)))
    } else if opcode == 10 {
        Ok(Some(Message::Pong(payload)))
    } else if opcode == 0 {
        Ok(None)
    } else {
        let mut t = chars_of("Unknown opcode: ");
        push_decimal(&mut t, opcode as u64);
        Err(Error::WebSocket(crate::text::string_of(t.as_slice())))
    }
}

// ---------------------------------------------------------------------
// Connections
// ---------------------------------------------------------------------

/// A byte stream a WebSocket runs over.
pub trait ReadWrite {
    /// The bytes handed to `write_all` so far, in order, whatever each
    /// write gave back. A stream states how it keeps this account; until
    /// it does nothing is known of it.
    open spec fn handed(&self) -> Seq<u8> {
        vstd::pervasive::arbitrary()
    }

    /// The bytes successful reads have delivered so far, in order. A
    /// stream states how it keeps this account; until it does nothing is
    /// known of it.
    open spec fn delivered(&self) -> Seq<u8> {
        vstd::pervasive::arbitrary()
    }

    /// What `write_all` and `flush` have answered so far, in order: `Ok`,
    /// or the error's text. A stream states how it keeps this account;
    /// until it does nothing is known of it.
    open spec fn answers(&self) -> Seq<Result<(), Seq<char>>> {
        vstd::pervasive::arbitrary()
    }

    /// The bytes handed over up to the last successful flush. A stream
    /// states how it keeps this account; until it does nothing is known of
    /// it.
    open spec fn flushed(&self) -> Seq<u8> {
        vstd::pervasive::arbitrary()
    }

    /// Reads exactly `n` bytes; an error (with its text) when the stream
    /// fails or ends first. What a failed read consumed is left open.
    fn read_exact(&mut self, n: usize) -> (r: Result<Vec<u8>, String>)
        ensures
            r matches Ok(b) ==> b@.len() == n && final(self).delivered() == old(self).delivered() + b@,
            final(self).handed() == old(self).handed(),
            final(self).answers() == old(self).answers(),
            final(self).flushed() == old(self).flushed(),
    ;

    /// Writes all of `data`.
    fn write_all(&mut self, data: &[u8]) -> (r: Result<(), String>)
        ensures
            final(self).handed() == old(self).handed() + data@,
            final(self).delivered() == old(self).delivered(),
            final(self).answers() == old(self).answers().push(answer_view(r)),
            final(self).flushed() == old(self).flushed(),
    ;

    /// Flushes what was written: when it succeeds, everything handed over
    /// has been flushed. What a failed flush sent on is left open.
    fn flush(&mut self) -> (r: Result<(), String>)
        ensures
            final(self).handed() == old(self).handed(),
            final(self).delivered() == old(self).delivered(),
            final(self).answers() == old(self).answers().push(answer_view(r)),
            r is Ok ==> final(self).flushed() == old(self).handed(),
    ;
}

/// A stream's answer to a write or a flush, as a value.
pub open spec fn answer_view(r: Result<(), String>) -> Result<(), Seq<char>> {
    match r {
        Ok(()) => Ok(()),
        Err(m) => Err(m@),
    }
}

/// The answers a frame's write and flush add, and what sending it returns:
/// `Ok` exactly when the write and then the flush succeeded; a failed write
/// (with no flush tried after it) or a failed flush gives its text as a
/// WebSocket error.
pub open spec fn frame_answered(
    before: Seq<Result<(), Seq<char>>>,
    after: Seq<Result<(), Seq<char>>>,
    r: Result<(), Error>,
) -> bool {
    match r {
        Ok(()) => after == before + seq![Ok::<(), Seq<char>>(()), Ok::<(), Seq<char>>(())],
        Err(e) => e matches Error::WebSocket(m) && (after == before.push(Err(m@)) || after == before + seq![
            Ok::<(), Seq<char>>(()),
            Err(m@),
        ]),
    }
}

/// A WebSocket connection for bidirectional communication.
pub struct WebSocket<S> {
    stream: S,
    closed: bool,
    reads: Ghost<Seq<(usize, Result<Seq<u8>, Seq<char>>)>>,
}

/// What a read of the stream gave, as values.
pub open spec fn read_view(r: Result<Vec<u8>, String>) -> Result<Seq<u8>, Seq<char>> {
    match r {
        Ok(b) => Ok(b@),
        Err(m) => Err(m@),
    }
}

/// The bytes that a list of reads (bytes asked for, what came back)
/// delivered, in order.
pub open spec fn read_bytes(t: Seq<(usize, Result<Seq<u8>, Seq<char>>)>) -> Seq<u8>
    decreases t.len(),
{
    if t.len() == 0 {
        Seq::empty()
    } else {
        read_bytes(t.drop_last()) + match t.last().1 {
            Ok(b) => b,
            Err(_) => Seq::<u8>::empty(),
        }
    }
}

/// Every read succeeded.
pub open spec fn reads_ok(t: Seq<(usize, Result<Seq<u8>, Seq<char>>)>) -> bool {
    forall|i: int| 0 <= i < t.len() ==> (#[trigger] t[i]).1 is Ok
}

/// The head of a frame declares a payload longer than memory can address.
pub open spec fn declares_too_long(f: Seq<u8>) -> bool {
    let ext = ext_size(f[1] & 0x7Fu8) as int;
    &&& f.len() >= 2
    &&& ext > 0
    &&& f.len() >= 2 + ext
    &&& be_value(f.subrange(2, 2 + ext)) > usize::MAX
}

/// Reading a message whose bytes all arrived: the frame they make and what
/// it means (with the reply handed to the stream), or a payload too long
/// to hold.
pub open spec fn whole_read(f: Seq<u8>, r: Result<Option<Message>, Error>, h0: Seq<u8>, h1: Seq<u8>) -> bool {
    ||| (decoded(f) matches Some((op, p, n)) && n == f.len() && result_is(r, frame_result(op, p)) && h1 == h0
        + reply_bytes(op, p))
    ||| (declares_too_long(f) && (r matches Err(Error::WebSocket(s)) && s@ == "payload too large"@) && h1 == h0)
}

/// The reads made for one message (`t`) and what reading it gave: the first
/// read asks for the two head bytes; when it fails the connection counts as
/// closed (`Ok(None)`); when a later read fails its error is returned;
/// otherwise the bytes read make a whole frame (see [`whole_read`]).
pub open spec fn read_outcome(
    t: Seq<(usize, Result<Seq<u8>, Seq<char>>)>,
    r: Result<Option<Message>, Error>,
    h0: Seq<u8>,
    h1: Seq<u8>,
) -> bool {
    &&& t.len() > 0
    &&& t[0].0 == 2
    &&& if t[0].1 is Err {
        t.len() == 1 && (r matches Ok(x) && x is None) && h1 == h0
    } else if !reads_ok(t) {
        &&& reads_ok(t.drop_last())
        &&& t.last().1 matches Err(m) && (r matches Err(Error::WebSocket(s)) && s@ == m)
        &&& h1 == h0
    } else {
        whole_read(read_bytes(t), r, h0, h1)
    }
}

/// The WebSocket accept key for a client key: base64 of the SHA-1 of the
/// trimmed key and the GUID.
pub fn compute_accept_key(client_key: &str) -> (k: String)
    ensures
        k@ == accept_key(client_key@),
{
    let chars = chars_of(client_key);
    let mut input = trim_chars(chars.as_slice());
    let magic = chars_of("258EAFA5-E914-47DA-95CA-C5AB0DC85B11");
    push_all(&mut input, magic.as_slice());
    let bytes = encode_chars(input.as_slice());
    let digest = sha1_digest(bytes.as_slice());
    base64_encode(digest.as_slice())
}

/// The HTTP response that accepts a WebSocket upgrade.
pub fn handshake_response(client_key: &str) -> (b: Vec<u8>)
    ensures
        b@ == encode_utf8(handshake_text(client_key@)),
{
    let accept = compute_accept_key(client_key);
    let mut t = chars_of(
        "HTTP/1.1 101 Switching Protocols\r\nUpgrade: websocket\r\nConnection: Upgrade\r\nSec-WebSocket-Accept: ",
    );
    let a = chars_of(accept.as_str());
    push_all(&mut t, a.as_slice());
    let tail = chars_of("\r\n\r\n");
    push_all(&mut t, tail.as_slice());
    encode_chars(t.as_slice())
}

/// What a send does: on an open connection the frame is handed to the
/// stream and flushed, and the send succeeds exactly when the stream
/// accepted both; on a closed one nothing is handed and the answer is an
/// error. Errors are WebSocket errors; reads are untouched.
pub open spec fn sent_after<S: ReadWrite>(
    before: WebSocket<S>,
    after: WebSocket<S>,
    frame: Seq<u8>,
    r: Result<(), Error>,
) -> bool {
    &&& !before.is_closed() ==> after.handed() == before.handed() + frame && frame_answered(
        before.answers(),
        after.answers(),
        r,
    ) && (r is Ok ==> after.flushed() == after.handed())
    &&& before.is_closed() ==> after.handed() == before.handed() && after.answers() == before.answers()
        && after.flushed() == before.flushed() && r is Err
    &&& r matches Err(e) ==> e is WebSocket
    &&& after.reads() == before.reads()
}

impl<S: ReadWrite> WebSocket<S> {
    /// The bytes handed to the stream so far, in order.
    pub closed spec fn handed(&self) -> Seq<u8> {
        self.stream.handed()
    }

    /// What the stream's writes and flushes have answered so far.
    pub closed spec fn answers(&self) -> Seq<Result<(), Seq<char>>> {
        self.stream.answers()
    }

    /// The bytes the stream has flushed so far.
    pub closed spec fn flushed(&self) -> Seq<u8> {
        self.stream.flushed()
    }

    /// The bytes the stream's successful reads have delivered so far.
    pub closed spec fn delivered(&self) -> Seq<u8> {
        self.stream.delivered()
    }

    /// Whether `close` has been called: nothing more is sent.
    pub closed spec fn is_closed(&self) -> bool {
        self.closed
    }

    /// The reads made of the stream so far: bytes asked for and what came
    /// back, in order.
    pub closed spec fn reads(&self) -> Seq<(usize, Result<Seq<u8>, Seq<char>>)> {
        self.reads@
    }

    /// A WebSocket over a stream whose handshake is done.
    pub fn new(stream: S) -> (ws: Self)
        ensures
            ws.handed() == stream.handed(),
            ws.delivered() == stream.delivered(),
            ws.reads() == Seq::<(usize, Result<Seq<u8>, Seq<char>>)>::empty(),
            !ws.is_closed(),
    {
        WebSocket { stream, closed: false, reads: Ghost(Seq::empty()) }
    }

    /// Reads exactly `n` bytes, recording the read.
    fn read_n(&mut self, n: usize) -> (r: Result<Vec<u8>, String>)
        ensures
            final(self).reads() == old(self).reads().push((n, read_view(r))),
            r matches Ok(b) ==> final(self).delivered() == old(self).delivered() + b@,
            final(self).handed() == old(self).handed(),
            final(self).is_closed() == old(self).is_closed(),
            r matches Ok(b) ==> b@.len() == n,
    {
        let r = self.stream.read_exact(n);
        proof {
            self.reads@ = self.reads@.push((n, read_view(r)));
        }
        r
    }

    /// The WebSocket accept key for a client key.
    pub fn compute_accept_key(client_key: &str) -> (k: String)
        ensures
            k@ == accept_key(client_key@),
    {
        compute_accept_key(client_key)
    }

    /// The HTTP response that accepts a WebSocket upgrade.
    pub fn handshake_response(client_key: &str) -> (b: Vec<u8>)
        ensures
            b@ == encode_utf8(handshake_text(client_key@)),
    {
        handshake_response(client_key)
    }

    /// Writes one frame and flushes.
    fn write_frame(&mut self, opcode: u8, payload: &[u8]) -> (r: Result<(), Error>)
        ensures
            final(self).handed() == old(self).handed() + frame_bytes(opcode, payload@),
            final(self).delivered() == old(self).delivered(),
            final(self).reads() == old(self).reads(),
            final(self).is_closed() == old(self).is_closed(),
            frame_answered(old(self).answers(), final(self).answers(), r),
            r is Ok ==> final(self).flushed() == final(self).handed(),
    {
        let ghost a0 = self.answers();
        let frame = encode_frame(opcode, payload);
        match self.stream.write_all(frame.as_slice()) {
            Ok(()) => {},
            Err(m) => {
                return Err(Error::WebSocket(m));
            },
        }
        match self.stream.flush() {
            Ok(()) => {
                assert(self.answers() =~= a0 + seq![Ok::<(), Seq<char>>(()), Ok::<(), Seq<char>>(())]);
                Ok(())
            },
            Err(m) => {
                assert(self.answers() =~= a0 + seq![Ok::<(), Seq<char>>(()), Err(m@)]);
                Err(Error::WebSocket(m))
            },
        }
    }

    /// Sends one message frame unless the connection was closed: then
    /// nothing is written and the answer is an error.
    fn send_frame(&mut self, opcode: u8, payload: &[u8]) -> (r: Result<(), Error>)
        ensures
            sent_after(*old(self), *final(self), frame_bytes(opcode, payload@), r),
            final(self).is_closed() == old(self).is_closed(),
    {
        if self.closed {
            return Err(Error::WebSocket("connection closed".to_owned()));
        }
        self.write_frame(opcode, payload)
    }

    /// Sends a text message.
    pub fn send_text(&mut self, text: &str) -> (r: Result<(), Error>)
        ensures
            sent_after(*old(self), *final(self), frame_bytes(1, encode_utf8(text@)), r),
            final(self).is_closed() == old(self).is_closed(),
    {
        let bytes = crate::text::utf8_bytes(text);
        self.send_frame(1, bytes.as_slice())
    }

    /// Sends a binary message.
    pub fn send_binary(&mut self, data: &[u8]) -> (r: Result<(), Error>)
        ensures
            sent_after(*old(self), *final(self), frame_bytes(2, data@), r),
            final(self).is_closed() == old(self).is_closed(),
    {
        self.send_frame(2, data)
    }

    /// Sends a ping.
    pub fn send_ping(&mut self, data: &[u8]) -> (r: Result<(), Error>)
        ensures
            sent_after(*old(self), *final(self), frame_bytes(9, data@), r),
            final(self).is_closed() == old(self).is_closed(),
    {
        self.send_frame(9, data)
    }

    /// Sends a close frame and closes the connection: later sends write
    /// nothing. On a connection already closed nothing is written.
    pub fn close(&mut self) -> (r: Result<(), Error>)
        ensures
            sent_after(*old(self), *final(self), frame_bytes(8, Seq::empty()), r),
            final(self).is_closed(),
    {
        let empty: Vec<u8> = Vec::new();
        let r = self.send_frame(8, empty.as_slice());
        self.closed = true;
        r
    }

    /// Reads the next message. `Ok(None)` when the connection has closed
    /// or a continuation frame came. A close is answered with a close frame
    /// and a ping with a pong carrying its payload.
    #[verifier::spinoff_prover]
    #[verifier::rlimit(80)]
    pub fn read_message(&mut self) -> (r: Result<Option<Message>, Error>)
        ensures
            final(self).reads().len() > old(self).reads().len(),
            final(self).reads().subrange(0, old(self).reads().len() as int) == old(self).reads(),
            read_outcome(
                final(self).reads().subrange(old(self).reads().len() as int, final(self).reads().len() as int),
                r,
                old(self).handed(),
                final(self).handed(),
            ),
            final(self).is_closed() == old(self).is_closed(),
            reads_ok(final(self).reads().subrange(old(self).reads().len() as int, final(self).reads().len() as int))
                ==> final(self).delivered() == old(self).delivered() + read_bytes(
                final(self).reads().subrange(old(self).reads().len() as int, final(self).reads().len() as int),
            ),
    {
        let ghost r0 = self.reads();
        let ghost h0 = self.handed();
        let ghost d0 = self.delivered();
        let header = match self.read_n(2) {
            Ok(b) => b,
            Err(m) => {
                proof {
                    let t = self.reads().subrange(r0.len() as int, self.reads().len() as int);
                    assert(t =~= seq![(2usize, Err(m@))]);
                    assert(self.reads().subrange(0, r0.len() as int) =~= r0);
                }
                return Ok(None);
            },
        };
        let ghost t1 = seq![(2usize, Ok::<Seq<u8>, Seq<char>>(header@))];
        assert(self.reads() =~= r0 + t1);
        let masked = header[1] & 0x80 != 0;
        let code = header[1] & 0x7F;
        let ext: usize = if code == 126 {
            2
        } else if code == 127 {
            8
        } else {
            0
        };
        let ghost hv = header@;
        assert(self.delivered() =~= d0 + hv);
        let ghost mut ev: Seq<u8> = Seq::empty();
        let ghost mut kv: Seq<u8> = Seq::empty();
        let ghost mut bv: Seq<u8> = Seq::empty();
        let ghost mut t = t1;
        let mut all = header;
        proof {
            assert(read_bytes(t1) =~= hv) by {
                assert(t1.drop_last() =~= Seq::<(usize, Result<Seq<u8>, Seq<char>>)>::empty());
                assert(read_bytes(t1.drop_last()) =~= Seq::<u8>::empty());
                assert(t1.last().1 == Ok::<Seq<u8>, Seq<char>>(hv));
            }
        }
        let len: u64 = if ext > 0 {
            let e = match self.read_n(ext) {
                Ok(b) => b,
                Err(m) => {
                    proof {
                        let tt = t.push((ext, Err(m@)));
                        assert(self.reads() =~= r0 + tt);
                        assert(self.reads().subrange(r0.len() as int, self.reads().len() as int) =~= tt);
                        assert(self.reads().subrange(0, r0.len() as int) =~= r0);
                        assert(tt.drop_last() =~= t);
                        assert(!reads_ok(tt)) by {
                            assert(!(tt[1].1 is Ok));
                        }
                        assert(reads_ok(t)) by {
                            assert forall|i: int| 0 <= i < t.len() implies (#[trigger] t[i]).1 is Ok by {}
                        }
                    }
                    return Err(Error::WebSocket(m));
                },
            };
            push_all(&mut all, e.as_slice());
            proof {
                ev = e@;
                assert(self.delivered() =~= d0 + hv + ev);
                let tt = t.push((ext, Ok(e@)));
                assert(tt.drop_last() =~= t);
                t = tt;
            }
            be_number(e.as_slice())
        } else {
            code as u64
        };
        assert(self.reads() =~= r0 + t);
        assert(reads_ok(t));
        assert(read_bytes(t) =~= hv + ev);
        if masked {
            let key = match self.read_n(4) {
                Ok(b) => b,
                Err(m) => {
                    proof {
                        let tt = t.push((4usize, Err(m@)));
                        assert(self.reads() =~= r0 + tt);
                        assert(self.reads().subrange(r0.len() as int, self.reads().len() as int) =~= tt);
                        assert(self.reads().subrange(0, r0.len() as int) =~= r0);
                        assert(tt.drop_last() =~= t);
                        assert(!reads_ok(tt)) by {
                            assert(!(tt[tt.len() - 1].1 is Ok));
                        }
                    }
                    return Err(Error::WebSocket(m));
                },
            };
            push_all(&mut all, key.as_slice());
            proof {
                kv = key@;
                assert(self.delivered() =~= d0 + hv + ev + kv);
                let tt = t.push((4usize, Ok(key@)));
                assert(tt.drop_last() =~= t);
                t = tt;
            }
        }
        assert(self.reads() =~= r0 + t);
        assert(reads_ok(t));
        assert(read_bytes(t) =~= hv + ev + kv);
        proof {
            let mlen: int = if masked { 4 } else { 0 };
            let f0 = hv + ev + kv;
            assert(f0[1] == hv[1]);
            assert(ext as int == ext_size(code) as int);
            assert(f0.subrange(2, 2 + ext as int) =~= ev);
            assert(ev.len() == ext && kv.len() == mlen);
        }
        if len > usize::MAX as u64 {
            proof {
                assert(self.reads().subrange(r0.len() as int, self.reads().len() as int) =~= t);
                assert(self.reads().subrange(0, r0.len() as int) =~= r0);
                assert(ext > 0);
                assert(len == be_value(ev));
                assert(declares_too_long(read_bytes(t)));
                assert(self.delivered() =~= d0 + read_bytes(t));
            }
            return Err(Error::WebSocket("payload too large".to_owned()));
        }
        if len > 0 {
            let body = match self.read_n(len as usize) {
                Ok(b) => b,
                Err(m) => {
                    proof {
                        let tt = t.push((len as usize, Err(m@)));
                        assert(self.reads() =~= r0 + tt);
                        assert(self.reads().subrange(r0.len() as int, self.reads().len() as int) =~= tt);
                        assert(self.reads().subrange(0, r0.len() as int) =~= r0);
                        assert(tt.drop_last() =~= t);
                        assert(!reads_ok(tt)) by {
                            assert(!(tt[tt.len() - 1].1 is Ok));
                        }
                    }
                    return Err(Error::WebSocket(m));
                },
            };
            push_all(&mut all, body.as_slice());
            proof {
                bv = body@;
                assert(self.delivered() =~= d0 + hv + ev + kv + bv);
                let tt = t.push((len as usize, Ok(body@)));
                assert(tt.drop_last() =~= t);
                t = tt;
            }
        }
        assert(self.reads() =~= r0 + t);
        assert(reads_ok(t));
        let ghost f = all@;
        proof {
            let mlen: int = if masked { 4 } else { 0 };
            assert(f =~= hv + ev + kv + bv);
            assert(read_bytes(t) =~= f);
            assert(self.delivered() =~= d0 + f);
            assert(hv.len() == 2 && ev.len() == ext && kv.len() == mlen && bv.len() == len);
            assert(f[0] == hv[0] && f[1] == hv[1]);
            assert(f.subrange(2, 2 + ext as int) =~= ev);
            if masked {
                assert(f.subrange(2 + ext as int, 2 + ext as int + 4) =~= kv);
            }
            assert(f.subrange(2 + ext + mlen, 2 + ext + mlen + len) =~= bv);
            assert(ext as int == ext_size(code) as int);
            if ext == 0 {
                assert(len == code);
            } else {
                assert(len == be_value(ev));
            }
            assert(decoded(f) is Some);
            assert(self.reads().subrange(r0.len() as int, self.reads().len() as int) =~= t);
            assert(self.reads().subrange(0, r0.len() as int) =~= r0);
        }
        match decode_frame(all.as_slice()) {
            Some((op, payload, n)) => {
                let ghost pv = payload@;
                assert(n == f.len());
                if op == 8 {
                    let empty: Vec<u8> = Vec::new();
                    let _ = self.write_frame(8, empty.as_slice());
                } else if op == 9 {
                    let _ = self.write_frame(10, payload.as_slice());
                }
                assert(self.handed() =~= h0 + reply_bytes(op, pv));
                let r = message_for(op, payload);
                assert(decoded(f) matches Some((op2, p2, n2)) && n2 == f.len() && result_is(r, frame_result(op2, p2))
                    && self.handed() == h0 + reply_bytes(op2, p2));
                assert(self.reads() =~= r0 + t);
                r
            },
            None => {
                assert(false);
                Ok(None)
            },
        }
    }
}


/// What a text or binary send hands to a stream reads back as the same
/// message: a read whose bytes are exactly that frame gives the text (or
/// the data) back and sends no reply.
pub proof fn law_sent_message_reads_back(
    t: Seq<(usize, Result<Seq<u8>, Seq<char>>)>,
    r: Result<Option<Message>, Error>,
    h0: Seq<u8>,
    h1: Seq<u8>,
    m: MessageView,
)
    requires
        m matches MessageView::Text(s) ==> encode_utf8(s).len() <= usize::MAX,
        m matches MessageView::Binary(d) ==> d.len() <= usize::MAX,
        m is Text || m is Binary,
        read_outcome(t, r, h0, h1),
        reads_ok(t),
        read_bytes(t) == (match m {
            MessageView::Text(s) => frame_bytes(1, encode_utf8(s)),
            MessageView::Binary(d) => frame_bytes(2, d),
            _ => Seq::empty(),
        }),
    ensures
        r matches Ok(Some(x)) && x@ == m,
        h1 == h0,
{
    let (op, p): (u8, Seq<u8>) = match m {
        MessageView::Text(s) => (1u8, encode_utf8(s)),
        MessageView::Binary(d) => (2u8, d),
        _ => (0u8, Seq::empty()),
    };
    law_frame_roundtrip(op, p, Seq::empty());
    assert(frame_bytes(op, p) + Seq::<u8>::empty() =~= frame_bytes(op, p));
    assert(t[0].1 is Ok);
    if let MessageView::Text(s) = m {
        vstd::utf8::encode_utf8_valid_utf8(s);
        vstd::utf8::encode_utf8_decode_utf8(s);
    }
    assert(!declares_too_long(read_bytes(t))) by {
        let f = read_bytes(t);
        if declares_too_long(f) {
            assert(decoded(f) is Some);
        }
    }
}

} // verus!
