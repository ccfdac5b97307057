//! The websocket protocol: the opening handshake, frame encoding and decoding,
//! and assembling frames into messages.
use vstd::prelude::*;
use crate::text::{append_bytes, lossy_string, push_str, lossy_text};
use crate::utf8;
use sha1::Digest;

verus! {

broadcast use vstd::string::group_string_axioms;

pub const OP_TEXT: u8 = 0x1;
pub const OP_BINARY: u8 = 0x2;
pub const OP_CLOSE: u8 = 0x8;
pub const OP_PING: u8 = 0x9;
pub const OP_PONG: u8 = 0xA;

/// A websocket message.
pub enum Message {
    Text(String),
    Binary(Vec<u8>),
    Close(Option<(u16, String)>),
    Ping(Vec<u8>),
    Pong(Vec<u8>),
}

/// The GUID that the handshake appends to the client's key.
pub open spec fn ws_guid() -> Seq<char> {
    "258EAFA5-E914-47DA-95CA-C5AB0DC85B11"@
}

/// The SHA-1 digest of a byte sequence.
pub uninterp spec fn sha1(data: Seq<u8>) -> Seq<u8>;

/// Calls the `sha1` crate (`Sha1::new`, `update`, `finalize`) on `data`. The digest
/// is named; SHA-1 itself is left unsaid, apart from its 20-byte length.
#[verifier::external_body]
fn sha1_digest(data: &[u8]) -> (r: Vec<u8>)
    ensures
        r@ == sha1(data@),
        r@.len() == 20,
{
    let mut hasher = sha1::Sha1::new();
    hasher.update(data);
    hasher.finalize().to_vec()
}

/// The base64 alphabet.
pub open spec fn b64_char(i: nat) -> char {
    if i < 26 {
        ((i + 65) as u8) as char
    } else if i < 52 {
        ((i - 26 + 97) as u8) as char
    } else if i < 62 {
        ((i - 52 + 48) as u8) as char
    } else if i == 62 {
        '+'
    } else {
        '/'
    }
}

fn b64(i: u8) -> (c: char)
    requires
        i < 64,
    ensures
        c == b64_char(i as nat),
{
    if i < 26 {
        (i + 65) as char
    } else if i < 52 {
        (i - 26 + 97) as char
    } else if i < 62 {
        (i - 52 + 48) as char
    } else if i == 62 {
        '+'
    } else {
        '/'
    }
}

/// Standard base64 with `=` padding.
pub open spec fn base64(d: Seq<u8>) -> Seq<char>
    decreases d.len(),
{
    if d.len() == 0 {
        Seq::empty()
    } else if d.len() == 1 {
        seq![b64_char((d[0] / 4) as nat), b64_char(((d[0] % 4) * 16) as nat), '=', '=']
    } else if d.len() == 2 {
        seq![
            b64_char((d[0] / 4) as nat),
            b64_char(((d[0] % 4) * 16 + d[1] / 16) as nat),
            b64_char(((d[1] % 16) * 4) as nat),
            '=',
        ]
    } else {
        seq![
            b64_char((d[0] / 4) as nat),
            b64_char(((d[0] % 4) * 16 + d[1] / 16) as nat),
            b64_char(((d[1] % 16) * 4 + d[2] / 64) as nat),
            b64_char((d[2] % 64) as nat),
        ] + base64(d.subrange(3, d.len() as int))
    }
}

/// Encodes bytes as standard base64 with padding.
pub fn base64_encode(data: &[u8]) -> (r: String)
    ensures
        r@ == base64(data@),
{
    let n = data.len();
    let mut out = String::new();
    let mut i: usize = 0;
    assert(data@.subrange(0, n as int) =~= data@);
    assert(out@ + base64(data@) =~= base64(data@));
    while i < n
        invariant
            n == data@.len(),
            i <= n,
            base64(data@) == out@ + base64(data@.subrange(i as int, n as int)),
        decreases n - i,
    {
        let ghost rest = data@.subrange(i as int, n as int);
        let b0 = data[i];
        let c0 = b64(b0 / 4);
        if n - i == 1 {
            let c1 = b64((b0 % 4) * 16);
            let mut chunk = String::new();
            crate::text::push_char(&mut chunk, c0);
            crate::text::push_char(&mut chunk, c1);
            crate::text::push_char(&mut chunk, '=');
            crate::text::push_char(&mut chunk, '=');
            assert(chunk@ =~= base64(rest));
            push_str(&mut out, chunk.as_str());
            i = n;
            assert(data@.subrange(n as int, n as int) =~= Seq::<u8>::empty());
            assert(out@ + base64(data@.subrange(i as int, n as int)) =~= out@);
        } else if n - i == 2 {
            let b1 = data[i + 1];
            let c1 = b64((b0 % 4) * 16 + b1 / 16);
            let c2 = b64((b1 % 16) * 4);
            let mut chunk = String::new();
            crate::text::push_char(&mut chunk, c0);
            crate::text::push_char(&mut chunk, c1);
            crate::text::push_char(&mut chunk, c2);
            crate::text::push_char(&mut chunk, '=');
            assert(chunk@ =~= base64(rest));
            push_str(&mut out, chunk.as_str());
            i = n;
            assert(data@.subrange(n as int, n as int) =~= Seq::<u8>::empty());
            assert(out@ + base64(data@.subrange(i as int, n as int)) =~= out@);
        } else {
            let b1 = data[i + 1];
            let b2 = data[i + 2];
            let c1 = b64((b0 % 4) * 16 + b1 / 16);
            let c2 = b64((b1 % 16) * 4 + b2 / 64);
            let c3 = b64(b2 % 64);
            let mut chunk = String::new();
            crate::text::push_char(&mut chunk, c0);
            crate::text::push_char(&mut chunk, c1);
            crate::text::push_char(&mut chunk, c2);
            crate::text::push_char(&mut chunk, c3);
            assert(rest.subrange(3, rest.len() as int) =~= data@.subrange(i + 3, n as int));
            assert(chunk@ + base64(data@.subrange(i + 3, n as int)) =~= base64(rest));
            push_str(&mut out, chunk.as_str());
            i = i + 3;
        }
    }
    assert(data@.subrange(0, n as int) =~= data@);
    out
}

/// The `Sec-WebSocket-Accept` value for a client key.
pub open spec fn accept_key(key: Seq<char>) -> Seq<char> {
    base64(sha1(utf8(key) + utf8(ws_guid())))
}

/// The `Sec-WebSocket-Accept` value for a client key: base64 of the SHA-1 of the
/// key followed by the protocol GUID.
pub fn compute_accept_key(key: &str) -> (r: String)
    ensures
        r@ == accept_key(key@),
{
    let mut input: Vec<u8> = Vec::new();
    append_bytes(&mut input, key.as_bytes());
    append_bytes(&mut input, "258EAFA5-E914-47DA-95CA-C5AB0DC85B11".as_bytes());
    let digest = sha1_digest(input.as_slice());
    base64_encode(digest.as_slice())
}

/// The answer that accepts a websocket handshake.
pub open spec fn handshake_response(key: Seq<char>) -> Seq<char> {
    "HTTP/1.1 101 Switching Protocols\r\nUpgrade: websocket\r\nConnection: Upgrade\r\nSec-WebSocket-Accept: "@
        + accept_key(key) + "\r\n\r\n"@
}

/// The answer that accepts a websocket handshake with the given client key.
pub fn accept_response(key: &str) -> (r: String)
    ensures
        r@ == handshake_response(key@),
{
    let mut s = "HTTP/1.1 101 Switching Protocols\r\nUpgrade: websocket\r\nConnection: Upgrade\r\nSec-WebSocket-Accept: ".to_owned();
    let k = compute_accept_key(key);
    push_str(&mut s, k.as_str());
    push_str(&mut s, "\r\n\r\n");
    s
}

/// The `k` low-order bytes of `n`, most significant first.
pub open spec fn be_bytes(n: nat, k: nat) -> Seq<u8>
    decreases k,
{
    if k == 0 {
        Seq::empty()
    } else {
        be_bytes(n / 256, (k - 1) as nat).push((n % 256) as u8)
    }
}

fn be_bytes_exec(n: u64, k: usize) -> (r: Vec<u8>)
    requires
        k <= 8,
    ensures
        r@ == be_bytes(n as nat, k as nat),
    decreases k,
{
    if k == 0 {
        Vec::new()
    } else {
        let mut v = be_bytes_exec(n / 256, k - 1);
        v.push((n % 256) as u8);
        v
    }
}

/// A single final frame carrying `payload` with the given opcode, unmasked.
pub open spec fn frame_bytes(opcode: u8, payload: Seq<u8>) -> Seq<u8> {
    let len = payload.len();
    seq![(0x80u8 | opcode) as u8] + if len < 126 {
        seq![len as u8]
    } else if len <= 65535 {
        seq![126u8] + be_bytes(len, 2)
    } else {
        seq![127u8] + be_bytes(len, 8)
    } + payload
}

/// Encodes a final, unmasked frame.
pub fn encode_frame(opcode: u8, payload: &[u8]) -> (r: Vec<u8>)
    ensures
        r@ == frame_bytes(opcode, payload@),
{
    let mut frame: Vec<u8> = Vec::new();
    frame.push(0x80u8 | opcode);
    let len = payload.len();
    if len < 126 {
        frame.push(len as u8);
    } else if len <= 65535 {
        frame.push(126u8);
        let ext = be_bytes_exec(len as u64, 2);
        append_bytes(&mut frame, ext.as_slice());
    } else {
        frame.push(127u8);
        let ext = be_bytes_exec(len as u64, 8);
        append_bytes(&mut frame, ext.as_slice());
    }
    append_bytes(&mut frame, payload);
    frame
}

/// The payload of a close frame: the status code, big-endian, then the reason.
pub fn close_payload(code: u16, reason: &str) -> (r: Vec<u8>)
    ensures
        r@ == be_bytes(code as nat, 2) + utf8(reason@),
{
    let mut payload = be_bytes_exec(code as u64, 2);
    append_bytes(&mut payload, reason.as_bytes());
    payload
}

/// What the first two bytes of a frame state.
pub struct FrameHeader {
    pub fin: bool,
    pub opcode: u8,
    pub masked: bool,
    /// The 7-bit length: the length itself below 126, else which extended form follows.
    pub len7: u8,
}

/// Reads the first two bytes of a frame.
pub fn parse_frame_header(b0: u8, b1: u8) -> (r: FrameHeader)
    ensures
        r.fin == (b0 >= 128),
        r.opcode == b0 % 16,
        r.masked == (b1 >= 128),
        r.len7 == b1 % 128,
{
    FrameHeader { fin: b0 >= 128, opcode: b0 % 16, masked: b1 >= 128, len7: b1 % 128 }
}

/// The big-endian number a byte sequence states.
pub open spec fn be_value(b: Seq<u8>) -> nat
    decreases b.len(),
{
    if b.len() == 0 {
        0
    } else {
        be_value(b.drop_last()) * 256 + b.last() as nat
    }
}

/// How many extended-length bytes follow a frame's 7-bit length field: two
/// when it says 126, eight when it says 127, none otherwise.
pub open spec fn extended_len_size(len7: u8) -> nat {
    if len7 == 126 {
        2
    } else if len7 == 127 {
        8
    } else {
        0
    }
}

/// The number of extended-length bytes to read after the 7-bit length.
pub fn extended_len_bytes(len7: u8) -> (r: usize)
    ensures
        r == extended_len_size(len7),
{
    if len7 == 126 {
        2
    } else if len7 == 127 {
        8
    } else {
        0
    }
}

/// The payload length of a frame: the 7-bit field itself, or the big-endian
/// number in the extended-length bytes read after it.
pub fn payload_len(len7: u8, ext: &[u8]) -> (r: u64)
    requires
        ext@.len() == extended_len_size(len7),
    ensures
        r == if extended_len_size(len7) == 0 { len7 as nat } else { be_value(ext@) },
{
    if ext.len() == 0 {
        len7 as u64
    } else {
        be_u64(ext)
    }
}

/// Reads a big-endian number of at most eight bytes.
pub fn be_u64(b: &[u8]) -> (r: u64)
    requires
        b@.len() <= 8,
    ensures
        r == be_value(b@),
{
    let mut v: u64 = 0;
    let mut i: usize = 0;
    while i < b.len()
        invariant
            i <= b@.len() <= 8,
            v == be_value(b@.subrange(0, i as int)),
            v < pow256(i as nat),
        decreases b@.len() - i,
    {
        assert(b@.subrange(0, i + 1).drop_last() =~= b@.subrange(0, i as int));
        proof {
            lemma_pow256_bound(i as nat);
        }
        assert(v * 256 + b@[i as int] < pow256((i + 1) as nat)) by (nonlinear_arith)
            requires
                v < pow256(i as nat),
                pow256((i + 1) as nat) == pow256(i as nat) * 256,
                b@[i as int] < 256,
        ;
        v = v * 256 + b[i] as u64;
        i = i + 1;
    }
    assert(b@.subrange(0, b@.len() as int) =~= b@);
    v
}

/// `256^k`.
pub open spec fn pow256(k: nat) -> nat
    decreases k,
{
    if k == 0 {
        1
    } else {
        pow256((k - 1) as nat) * 256
    }
}

proof fn lemma_pow256_bound(k: nat)
    requires
        k < 8,
    ensures
        pow256(k + 1) == pow256(k) * 256,
        pow256(k + 1) <= pow256(8),
        pow256(8) == 0x1_0000_0000_0000_0000,
    decreases k,
{
    reveal_with_fuel(pow256, 9);
    if k > 0 {
        lemma_pow256_bound((k - 1) as nat);
    }
}

/// The payload with the mask applied: byte `i` XORed with `mask[i % 4]`.
pub open spec fn unmasked(payload: Seq<u8>, mask: Seq<u8>) -> Seq<u8> {
    Seq::new(payload.len(), |i: int| (payload[i] ^ mask[i % 4]) as u8)
}

/// Applies a 4-byte mask to a payload.
pub fn unmask(payload: &mut Vec<u8>, mask: &[u8])
    requires
        mask@.len() == 4,
    ensures
        final(payload)@ == unmasked(old(payload)@, mask@),
{
    let ghost p0 = payload@;
    let n = payload.len();
    let mut i: usize = 0;
    while i < n
        invariant
            n == payload@.len(),
            n == p0.len(),
            mask@.len() == 4,
            i <= n,
            forall|j: int| 0 <= j < i ==> payload@[j] == (p0[j] ^ mask@[j % 4]) as u8,
            forall|j: int| i <= j < n ==> payload@[j] == p0[j],
        decreases n - i,
    {
        let v = payload[i] ^ mask[i % 4];
        payload.set(i, v);
        i = i + 1;
    }
    assert(payload@ =~= unmasked(p0, mask@));
}

/// Calls `String::from_utf8`: the string when the bytes are valid UTF-8.
#[verifier::external_body]
fn string_from_utf8(v: Vec<u8>) -> (r: Option<String>)
    ensures
        match r {
            Some(s) => vstd::utf8::valid_utf8(v@) && s@ == vstd::utf8::decode_utf8(v@),
            None => !vstd::utf8::valid_utf8(v@),
        },
{
    String::from_utf8(v).ok()
}

/// The message that an opcode and the joined payload make.
pub open spec fn decodes_to(opcode: u8, data: Seq<u8>, r: Option<Message>) -> bool {
    if opcode == OP_TEXT {
        if vstd::utf8::valid_utf8(data) {
            r matches Some(Message::Text(t)) && t@ == vstd::utf8::decode_utf8(data)
        } else {
            r is None
        }
    } else if opcode == OP_BINARY {
        r matches Some(Message::Binary(b)) && b@ == data
    } else if opcode == OP_CLOSE {
        if data.len() >= 2 {
            r matches Some(Message::Close(Some((code, reason)))) && code == data[0] * 256 + data[1]
                && reason@ == lossy_text(data.subrange(2, data.len() as int))
        } else {
            r matches Some(Message::Close(None))
        }
    } else if opcode == OP_PING {
        r matches Some(Message::Ping(p)) && p@ == data
    } else if opcode == OP_PONG {
        r matches Some(Message::Pong(p)) && p@ == data
    } else {
        r is None
    }
}

/// Turns an opcode and the payload of its frames into a message; a text message
/// must be valid UTF-8, and unknown opcodes give nothing.
pub fn decode_message(opcode: u8, data: Vec<u8>) -> (r: Option<Message>)
    ensures
        decodes_to(opcode, data@, r),
{
    if opcode == OP_TEXT {
        match string_from_utf8(data) {
            Some(t) => Some(Message::Text(t)),
            None => None,
        }
    } else if opcode == OP_BINARY {
        Some(Message::Binary(data))
    } else if opcode == OP_CLOSE {
        if data.len() >= 2 {
            let code: u16 = (data[0] as u16) * 256 + data[1] as u16;
            let reason = lossy_string(&data.as_slice()[2..data.len()]);
            Some(Message::Close(Some((code, reason))))
        } else {
            Some(Message::Close(None))
        }
    } else if opcode == OP_PING {
        Some(Message::Ping(data))
    } else if opcode == OP_PONG {
        Some(Message::Pong(data))
    } else {
        None
    }
}

/// Collects the frames of one message.
pub struct FrameAssembler {
    opcode: u8,
    data: Vec<u8>,
}

impl FrameAssembler {
    /// The opcode of the message: the first non-zero opcode seen, 0 before one.
    pub closed spec fn opcode_view(self) -> u8 {
        self.opcode
    }

    /// The payloads so far, joined.
    pub closed spec fn data_view(self) -> Seq<u8> {
        self.data@
    }

    pub fn new() -> (r: FrameAssembler)
        ensures
            r.opcode_view() == 0,
            r.data_view().len() == 0,
    {
        FrameAssembler { opcode: 0, data: Vec::new() }
    }

    /// Adds a frame; returns whether it was the final one.
    pub fn push_frame(&mut self, fin: bool, opcode: u8, payload: &[u8]) -> (done: bool)
        ensures
            done == fin,
            final(self).opcode_view() == if old(self).opcode_view() == 0 { opcode } else { old(self).opcode_view() },
            final(self).data_view() == old(self).data_view() + payload@,
    {
        if self.opcode == 0 {
            self.opcode = opcode;
        }
        append_bytes(&mut self.data, payload);
        fin
    }

    /// The message the collected frames make.
    pub fn finish(self) -> (r: Option<Message>)
        ensures
            decodes_to(self.opcode_view(), self.data_view(), r),
    {
        decode_message(self.opcode, self.data)
    }
}

/// Reading `k` big-endian bytes of `n` back gives `n` modulo `256^k`.
pub proof fn lemma_be_bytes_value(n: nat, k: nat)
    ensures
        be_value(be_bytes(n, k)) == n % pow256(k),
        be_bytes(n, k).len() == k,
    decreases k,
{
    if k == 0 {
        assert(n % 1 == 0) by (nonlinear_arith);
    } else {
        let km1 = (k - 1) as nat;
        lemma_be_bytes_value(n / 256, km1);
        let b = be_bytes(n / 256, km1).push((n % 256) as u8);
        assert(b.drop_last() =~= be_bytes(n / 256, km1));
        let p = pow256(km1);
        assert(p > 0) by {
            lemma_pow256_positive(km1);
        }
        let q = n / 256;
        let r = n % 256;
        let a = q / p;
        let c = q % p;
        assert(n == q * 256 + r) by {
            vstd::arithmetic::div_mod::lemma_fundamental_div_mod(n as int, 256);
        }
        assert(q == a * p + c) by (nonlinear_arith)
            requires
                p > 0,
                a == q / p,
                c == q % p,
        ;
        assert(0 <= c < p) by (nonlinear_arith)
            requires
                p > 0,
                c == q % p,
        ;
        assert(0 <= r < 256);
        assert(n == a * (p * 256) + (c * 256 + r)) by (nonlinear_arith)
            requires
                n == q * 256 + r,
                q == a * p + c,
        ;
        assert(0 <= c * 256 + r < p * 256) by (nonlinear_arith)
            requires
                0 <= c < p,
                0 <= r < 256,
        ;
        vstd::arithmetic::div_mod::lemma_fundamental_div_mod_converse(
            n as int,
            (p * 256) as int,
            a as int,
            (c * 256 + r) as int,
        );
        assert(pow256(k) == p * 256);
    }
}

proof fn lemma_pow256_positive(k: nat)
    ensures
        pow256(k) > 0,
    decreases k,
{
    if k > 0 {
        lemma_pow256_positive((k - 1) as nat);
    }
}

/// A frame as `encode_frame` writes it reads back, by the rules that
/// `parse_frame_header` and `be_u64` apply, as final and unmasked, with its
/// opcode, its payload length (in the 7-bit field, or in the 2 or 8 bytes
/// that follow when that field says 126 or 127), and its payload after the
/// header.
pub proof fn lemma_frame_reads_back(opcode: u8, payload: Seq<u8>)
    requires
        opcode < 16,
        payload.len() < 0x1_0000_0000_0000_0000,
    ensures
        ({
            let f = frame_bytes(opcode, payload);
            let len7 = f[1] % 128;
            let header_len: int = if len7 == 126 {
                4
            } else if len7 == 127 {
                10
            } else {
                2
            };
            &&& f.len() >= header_len
            &&& f[0] >= 128
            &&& f[0] % 16 == opcode
            &&& f[1] < 128
            &&& (if len7 < 126 { len7 as nat } else { be_value(f.subrange(2, header_len)) }) == payload.len()
            &&& f.subrange(header_len, f.len() as int) == payload
        }),
{
    let f = frame_bytes(opcode, payload);
    let len = payload.len();
    let b0 = (0x80u8 | opcode) as u8;
    assert(b0 >= 128 && b0 % 16 == opcode) by (bit_vector)
        requires
            b0 == (0x80u8 | opcode),
            opcode < 16,
    ;
    assert(f[0] == b0);
    if len < 126 {
        assert(f =~= seq![b0, len as u8] + payload);
        assert(f.subrange(2, f.len() as int) =~= payload);
    } else if len <= 65535 {
        lemma_be_bytes_value(len, 2);
        reveal_with_fuel(pow256, 3);
        let ext = be_bytes(len, 2);
        assert(f =~= seq![b0, 126u8] + ext + payload);
        assert(f.subrange(2, 4) =~= ext);
        assert(f.subrange(4, f.len() as int) =~= payload);
        assert(len % 65536 == len);
    } else {
        lemma_be_bytes_value(len, 8);
        reveal_with_fuel(pow256, 9);
        let ext = be_bytes(len, 8);
        assert(f =~= seq![b0, 127u8] + ext + payload);
        assert(f.subrange(2, 10) =~= ext);
        assert(f.subrange(10, f.len() as int) =~= payload);
        assert(len % 0x1_0000_0000_0000_0000 == len);
    }
}

} // verus!
