use mini_http::error::Error;
use std::cell::RefCell;
use std::rc::Rc;
use mini_http::websocket::{
    compute_accept_key, decode_frame, encode_frame, handshake_response, message_for, Message,
    ReadWrite, WebSocket,
};

struct MemStream {
    input: Vec<u8>,
    pos: usize,
    output: Rc<RefCell<Vec<u8>>>,
}

impl MemStream {
    fn new(input: Vec<u8>) -> (Self, Rc<RefCell<Vec<u8>>>) {
        let out = Rc::new(RefCell::new(Vec::new()));
        (MemStream { input, pos: 0, output: out.clone() }, out)
    }
}

impl ReadWrite for MemStream {
    fn read_exact(&mut self, n: usize) -> Result<Vec<u8>, String> {
        if self.pos + n > self.input.len() {
            return Err("unexpected end of stream".to_string());
        }
        let out = self.input[self.pos..self.pos + n].to_vec();
        self.pos += n;
        Ok(out)
    }

    fn write_all(&mut self, data: &[u8]) -> Result<(), String> {
        self.output.borrow_mut().extend_from_slice(data);
        Ok(())
    }

    fn flush(&mut self) -> Result<(), String> {
        Ok(())
    }
}

fn masked_frame(first: u8, payload: &[u8], key: [u8; 4]) -> Vec<u8> {
    let mut f = vec![first];
    if payload.len() < 126 {
        f.push(0x80 | payload.len() as u8);
    } else {
        f.push(0x80 | 126);
        f.push((payload.len() >> 8) as u8);
        f.push(payload.len() as u8);
    }
    f.extend_from_slice(&key);
    for (i, b) in payload.iter().enumerate() {
        f.push(b ^ key[i % 4]);
    }
    f
}

#[test]
fn accept_key_of_sample_nonce() {
    assert_eq!(compute_accept_key("dGhlIHNhbXBsZSBub25jZQ=="), "s3pPLMBiTxaQ9kYGzzhZRbK+xOo=");
    assert_eq!(compute_accept_key("  dGhlIHNhbXBsZSBub25jZQ== "), "s3pPLMBiTxaQ9kYGzzhZRbK+xOo=");
    assert_eq!(
        WebSocket::<MemStream>::compute_accept_key("dGhlIHNhbXBsZSBub25jZQ=="),
        "s3pPLMBiTxaQ9kYGzzhZRbK+xOo="
    );
}

#[test]
fn handshake_response_text() {
    let r = handshake_response("dGhlIHNhbXBsZSBub25jZQ==");
    assert_eq!(
        String::from_utf8(r).unwrap(),
        "HTTP/1.1 101 Switching Protocols\r\nUpgrade: websocket\r\nConnection: Upgrade\r\nSec-WebSocket-Accept: s3pPLMBiTxaQ9kYGzzhZRbK+xOo=\r\n\r\n"
    );
}

#[test]
fn encode_small_medium_large_frames() {
    assert_eq!(encode_frame(1, b"hi"), vec![0x81, 2, b'h', b'i']);
    assert_eq!(encode_frame(8, b""), vec![0x88, 0]);
    let medium = vec![7u8; 300];
    let f = encode_frame(2, &medium);
    assert_eq!(&f[..4], &[0x82, 126, 1, 44]);
    assert_eq!(f.len(), 4 + 300);
    let large = vec![1u8; 70000];
    let f = encode_frame(2, &large);
    assert_eq!(&f[..10], &[0x82, 127, 0, 0, 0, 0, 0, 1, 0x11, 0x70]);
    assert_eq!(f.len(), 10 + 70000);
}

#[test]
fn decode_gives_back_encoded_frames() {
    for len in [0usize, 1, 125, 126, 300, 65535, 65536, 70000] {
        let payload: Vec<u8> = (0..len).map(|i| (i % 251) as u8).collect();
        let mut f = encode_frame(2, &payload);
        let n = f.len();
        f.extend_from_slice(b"trailing");
        let (op, p, used) = decode_frame(&f).unwrap();
        assert_eq!(op, 2);
        assert_eq!(p, payload);
        assert_eq!(used, n);
    }
}

#[test]
fn decode_masked_and_incomplete() {
    let f = masked_frame(0x81, b"Hello", [0x37, 0xfa, 0x21, 0x3d]);
    assert_eq!(f, vec![0x81, 0x85, 0x37, 0xfa, 0x21, 0x3d, 0x7f, 0x9f, 0x4d, 0x51, 0x58]);
    let (op, p, used) = decode_frame(&f).unwrap();
    assert_eq!((op, p.as_slice(), used), (1, &b"Hello"[..], 11));
    assert!(decode_frame(&f[..1]).is_none());
    assert!(decode_frame(&f[..5]).is_none());
    assert!(decode_frame(&f[..10]).is_none());
    assert!(decode_frame(&[0x82, 126, 1]).is_none());
}

#[test]
fn frame_meanings() {
    match message_for(1, b"caf\xc3\xa9".to_vec()) {
        Ok(Some(Message::Text(t))) => assert_eq!(t, "caf\u{e9}"),
        other => panic!("unexpected {:?}", other.is_ok()),
    }
    match message_for(1, vec![0xff, b'a']) {
        Ok(Some(Message::Text(t))) => assert_eq!(t, "\u{fffd}a"),
        _ => panic!("expected text"),
    }
    assert!(matches!(message_for(2, vec![1, 2]), Ok(Some(Message::Binary(b))) if b == vec![1, 2]));
    assert!(matches!(message_for(8, vec![]), Ok(Some(Message::Close))));
    assert!(matches!(message_for(9, vec![5]), Ok(Some(Message::Ping(b))) if b == vec![5]));
    assert!(matches!(message_for(10, vec![6]), Ok(Some(Message::Pong(b))) if b == vec![6]));
    assert!(matches!(message_for(0, vec![]), Ok(None)));
    match message_for(3, vec![]) {
        Err(Error::WebSocket(m)) => assert_eq!(m, "Unknown opcode: 3"),
        _ => panic!("expected an error"),
    }
}

#[test]
fn read_message_text_and_ping_reply() {
    let mut input = masked_frame(0x81, b"hello", [1, 2, 3, 4]);
    input.extend(masked_frame(0x89, b"beat", [9, 8, 7, 6]));
    input.extend(masked_frame(0x88, b"", [0, 0, 0, 0]));
    let (stream, out) = MemStream::new(input);
    let mut ws = WebSocket::new(stream);
    match ws.read_message() {
        Ok(Some(Message::Text(t))) => assert_eq!(t, "hello"),
        _ => panic!("expected text"),
    }
    match ws.read_message() {
        Ok(Some(Message::Ping(p))) => assert_eq!(p, b"beat"),
        _ => panic!("expected ping"),
    }
    match ws.read_message() {
        Ok(Some(Message::Close)) => {}
        _ => panic!("expected close"),
    }
    assert!(matches!(ws.read_message(), Ok(None)));
    let mut replies = encode_frame(10, b"beat");
    replies.extend(encode_frame(8, b""));
    assert_eq!(*out.borrow(), replies);
}

#[test]
fn read_message_unknown_opcode_and_truncated() {
    let input = masked_frame(0x83, b"x", [1, 1, 1, 1]);
    let mut ws = WebSocket::new(MemStream::new(input).0);
    match ws.read_message() {
        Err(Error::WebSocket(m)) => assert_eq!(m, "Unknown opcode: 3"),
        _ => panic!("expected error"),
    }
    let mut input = masked_frame(0x82, b"abcdef", [1, 1, 1, 1]);
    input.truncate(8);
    let mut ws = WebSocket::new(MemStream::new(input).0);
    assert!(matches!(ws.read_message(), Err(Error::WebSocket(_))));
}

#[test]
fn send_methods_write_frames() {
    let (stream, out) = MemStream::new(Vec::new());
    let mut ws = WebSocket::new(stream);
    ws.send_text("hi").unwrap();
    ws.send_binary(&[1, 2]).unwrap();
    ws.send_ping(&[]).unwrap();
    ws.close().unwrap();
    let mut expected = encode_frame(1, b"hi");
    expected.extend(encode_frame(2, &[1, 2]));
    expected.extend(encode_frame(9, &[]));
    expected.extend(encode_frame(8, &[]));
    assert_eq!(expected, vec![0x81, 2, b'h', b'i', 0x82, 2, 1, 2, 0x89, 0, 0x88, 0]);
    assert_eq!(*out.borrow(), expected);
}

#[test]
fn nothing_is_sent_after_close() {
    let (stream, out) = MemStream::new(Vec::new());
    let mut ws = WebSocket::new(stream);
    assert!(ws.close().is_ok());
    assert_eq!(*out.borrow(), vec![0x88, 0x00]);
    assert!(matches!(ws.send_text("late"), Err(Error::WebSocket(_))));
    assert!(matches!(ws.send_binary(&[1]), Err(Error::WebSocket(_))));
    assert!(matches!(ws.send_ping(b"p"), Err(Error::WebSocket(_))));
    assert!(matches!(ws.close(), Err(Error::WebSocket(_))));
    assert_eq!(*out.borrow(), vec![0x88, 0x00]);
}

#[test]
fn sent_frames_read_back() {
    let data: Vec<u8> = (0..300u32).map(|i| (i % 251) as u8).collect();
    let (stream, out) = MemStream::new(Vec::new());
    let mut ws = WebSocket::new(stream);
    ws.send_text("héllo").unwrap();
    ws.send_binary(&data).unwrap();
    let written = out.borrow().clone();
    let mut reader = WebSocket::new(MemStream::new(written).0);
    match reader.read_message() {
        Ok(Some(Message::Text(t))) => assert_eq!(t, "héllo"),
        _ => panic!("expected text"),
    }
    match reader.read_message() {
        Ok(Some(Message::Binary(b))) => assert_eq!(b, data),
        _ => panic!("expected binary"),
    }
}

struct Faulty {
    fail_write: bool,
    fail_flush: bool,
    written: Vec<u8>,
    flushes: usize,
}

impl ReadWrite for Faulty {
    fn read_exact(&mut self, _n: usize) -> Result<Vec<u8>, String> {
        Err("closed".to_string())
    }

    fn write_all(&mut self, data: &[u8]) -> Result<(), String> {
        if self.fail_write {
            return Err("write refused".to_string());
        }
        self.written.extend_from_slice(data);
        Ok(())
    }

    fn flush(&mut self) -> Result<(), String> {
        self.flushes += 1;
        if self.fail_flush {
            return Err("flush refused".to_string());
        }
        Ok(())
    }
}

#[test]
fn send_succeeds_only_when_write_and_flush_do() {
    let mut ws = WebSocket::new(Faulty { fail_write: false, fail_flush: false, written: Vec::new(), flushes: 0 });
    assert!(ws.send_text("Hi").is_ok());
    let mut ws = WebSocket::new(Faulty { fail_write: false, fail_flush: true, written: Vec::new(), flushes: 0 });
    match ws.send_ping(b"ab") {
        Err(Error::WebSocket(m)) => assert_eq!(m, "flush refused"),
        _ => panic!("expected the flush error"),
    }
    let mut ws = WebSocket::new(Faulty { fail_write: true, fail_flush: false, written: Vec::new(), flushes: 0 });
    match ws.send_binary(&[1, 2]) {
        Err(Error::WebSocket(m)) => assert_eq!(m, "write refused"),
        _ => panic!("expected the write error"),
    }
}
