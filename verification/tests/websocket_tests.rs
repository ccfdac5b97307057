use grweb::websocket::{
    accept_response, base64_encode, be_u64, close_payload, compute_accept_key, decode_message,
    encode_frame, extended_len_bytes, parse_frame_header, payload_len, unmask, FrameAssembler, Message, OP_BINARY, OP_CLOSE, OP_PING,
    OP_PONG, OP_TEXT,
};

#[test]
fn base64_padding() {
    assert_eq!(base64_encode(b""), "");
    assert_eq!(base64_encode(b"f"), "Zg==");
    assert_eq!(base64_encode(b"fo"), "Zm8=");
    assert_eq!(base64_encode(b"foo"), "Zm9v");
    assert_eq!(base64_encode(b"foobar"), "Zm9vYmFy");
    assert_eq!(base64_encode(&[0xfb, 0xff]), "+/8=");
}

#[test]
fn handshake_key() {
    // the example of RFC 6455, section 1.3
    assert_eq!(compute_accept_key("dGhlIHNhbXBsZSBub25jZQ=="), "s3pPLMBiTxaQ9kYGzzhZRbK+xOo=");
    assert_eq!(
        accept_response("dGhlIHNhbXBsZSBub25jZQ=="),
        "HTTP/1.1 101 Switching Protocols\r\nUpgrade: websocket\r\nConnection: Upgrade\r\nSec-WebSocket-Accept: s3pPLMBiTxaQ9kYGzzhZRbK+xOo=\r\n\r\n"
    );
}

#[test]
fn frame_encoding_lengths() {
    assert_eq!(encode_frame(OP_TEXT, b"hi"), vec![0x81, 2, b'h', b'i']);
    let mid = vec![7u8; 300];
    let f = encode_frame(OP_BINARY, &mid);
    assert_eq!(&f[..4], &[0x82, 126, 0x01, 0x2c]);
    assert_eq!(f.len(), 304);
    let big = vec![0u8; 70000];
    let g = encode_frame(OP_BINARY, &big);
    assert_eq!(&g[..10], &[0x82, 127, 0, 0, 0, 0, 0, 1, 0x11, 0x70]);
    assert_eq!(g.len(), 70010);
    assert_eq!(encode_frame(OP_PING, b""), vec![0x89, 0]);
}

#[test]
fn close_frames() {
    assert_eq!(close_payload(1000, "bye"), vec![0x03, 0xe8, b'b', b'y', b'e']);
}

#[test]
fn frame_headers() {
    let h = parse_frame_header(0x81, 0x85);
    assert!(h.fin && h.masked);
    assert_eq!((h.opcode, h.len7), (OP_TEXT, 5));
    let c = parse_frame_header(0x00, 0x7e);
    assert!(!c.fin && !c.masked);
    assert_eq!((c.opcode, c.len7), (0, 126));
}

#[test]
fn big_endian_lengths() {
    assert_eq!(be_u64(&[0x01, 0x2c]), 300);
    assert_eq!(be_u64(&[0, 0, 0, 0, 0, 1, 0x11, 0x70]), 70000);
    assert_eq!(be_u64(&[]), 0);
}

#[test]
fn unmasking() {
    let mut p = vec![0x7f, 0x9f, 0x4d, 0x51, 0x58];
    unmask(&mut p, &[0x37, 0xfa, 0x21, 0x3d]);
    assert_eq!(p, b"Hello".to_vec());
}

#[test]
fn message_decoding() {
    assert!(matches!(decode_message(OP_TEXT, b"hey".to_vec()), Some(Message::Text(t)) if t == "hey"));
    assert!(decode_message(OP_TEXT, vec![0xff, 0xfe]).is_none());
    assert!(matches!(decode_message(OP_BINARY, vec![1, 2]), Some(Message::Binary(b)) if b == vec![1, 2]));
    assert!(matches!(decode_message(OP_CLOSE, vec![0x03, 0xe8, b'o', b'k']), Some(Message::Close(Some((1000, r)))) if r == "ok"));
    assert!(matches!(decode_message(OP_CLOSE, vec![0x03]), Some(Message::Close(None))));
    assert!(matches!(decode_message(OP_PING, vec![9]), Some(Message::Ping(p)) if p == vec![9]));
    assert!(matches!(decode_message(OP_PONG, vec![]), Some(Message::Pong(p)) if p.is_empty()));
    assert!(decode_message(0x3, vec![]).is_none());
}

#[test]
fn fragmented_messages() {
    let mut a = FrameAssembler::new();
    assert!(!a.push_frame(false, OP_TEXT, b"Hel"));
    assert!(!a.push_frame(false, 0, b"l"));
    assert!(a.push_frame(true, 0, b"o"));
    assert!(matches!(a.finish(), Some(Message::Text(t)) if t == "Hello"));
}

#[test]
fn encoded_frames_read_back() {
    for len in [0usize, 125, 126, 65535, 65536] {
        let payload: Vec<u8> = (0..len).map(|i| (i % 251) as u8).collect();
        let f = encode_frame(OP_BINARY, &payload);
        let h = parse_frame_header(f[0], f[1]);
        assert!(h.fin && !h.masked);
        assert_eq!(h.opcode, OP_BINARY);
        let (n, header_len) = match h.len7 {
            126 => (be_u64(&f[2..4]), 4),
            127 => (be_u64(&f[2..10]), 10),
            l => (l as u64, 2),
        };
        assert_eq!(n as usize, len);
        assert_eq!(&f[header_len..], &payload[..]);
    }
}

#[test]
fn frame_length_fields() {
    assert_eq!(extended_len_bytes(5), 0);
    assert_eq!(extended_len_bytes(125), 0);
    assert_eq!(extended_len_bytes(126), 2);
    assert_eq!(extended_len_bytes(127), 8);
    assert_eq!(payload_len(5, &[]), 5);
    assert_eq!(payload_len(126, &[0x01, 0x00]), 256);
    assert_eq!(payload_len(127, &[0, 0, 0, 0, 0, 1, 0, 0]), 65536);
}
