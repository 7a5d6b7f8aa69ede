//! WebSocket (RFC 6455): frames, the opening handshake, and the decisions
//! of a connection as frames arrive.

use vstd::prelude::*;
use crate::text::{ascii_chars, all_ascii, ascii_string, string_from_utf8, lemma_ascii_decode};
use vstd::utf8::{valid_utf8, decode_utf8, encode_utf8};
use crate::base64::{encode, base64_spec};
use crate::sha1::{sha1, sha1_spec};
use crate::date::{Date, http_text};
use crate::fields::{has_key, key_index, HeadersView};
use crate::request::{Request, any_token, has_token, lower, eq_ignore_ascii_case};
use crate::text::{push_str, push_slice};
use crate::types::{Method, StatusCode, HeaderName, HeaderValue, has_ctl, is_tchar, valid_header_name, valid_header_value};
use crate::response::{Response, ResponseView};
use vstd::utf8::{is_ascii_chars, is_ascii_chars_encode_utf8};

verus! {

/// A frame opcode.
#[derive(Debug, Clone, Copy, PartialEq, Eq, Structural)]
pub enum Opcode {
    Continuation,
    Text,
    Binary,
    Close,
    Ping,
    Pong,
}

impl Opcode {
    /// The 4-bit value of the opcode on the wire.
    pub open spec fn value(self) -> u8 {
        match self {
            Opcode::Continuation => 0,
            Opcode::Text => 1,
            Opcode::Binary => 2,
            Opcode::Close => 8,
            Opcode::Ping => 9,
            Opcode::Pong => 10,
        }
    }

    /// Whether the opcode is that of a control frame.
    pub open spec fn control(self) -> bool {
        self is Close || self is Ping || self is Pong
    }

    /// The 4-bit value of the opcode on the wire.
    pub fn as_u8(self) -> (b: u8)
        ensures
            b == self.value(),
    {
        match self {
            Opcode::Continuation => 0,
            Opcode::Text => 1,
            Opcode::Binary => 2,
            Opcode::Close => 8,
            Opcode::Ping => 9,
            Opcode::Pong => 10,
        }
    }

    /// Whether this is a control frame opcode (Close, Ping, Pong).
    pub fn is_control(self) -> (r: bool)
        ensures
            r == self.control(),
    {
        match self {
            Opcode::Close | Opcode::Ping | Opcode::Pong => true,
            _ => false,
        }
    }

    /// The opcode with the given value; unsupported values are refused.
    pub fn from_u8(byte: u8) -> (r: Result<Self, Error>)
        ensures
            r matches Ok(op) ==> op.value() == byte,
            r is Err ==> r == Err::<Self, Error>(Error::UnsupportedOpcode(byte)) && forall|op: Opcode| op.value() != byte,
    {
        match byte {
            0 => Ok(Opcode::Continuation),
            1 => Ok(Opcode::Text),
            2 => Ok(Opcode::Binary),
            8 => Ok(Opcode::Close),
            9 => Ok(Opcode::Ping),
            10 => Ok(Opcode::Pong),
            other => {
                assert forall|op: Opcode| op.value() != byte by {
                    match op {
                        Opcode::Continuation => {},
                        Opcode::Text => {},
                        Opcode::Binary => {},
                        Opcode::Close => {},
                        Opcode::Ping => {},
                        Opcode::Pong => {},
                    }
                }
                Err(Error::UnsupportedOpcode(other))
            },
        }
    }
}

/// Reading the value of an opcode gives the opcode back.
pub proof fn lemma_opcode_roundtrip(op: Opcode, other: Opcode)
    ensures
        op.value() == other.value() ==> op == other,
        op.value() < 16,
{
}

/// A WebSocket protocol failure.
#[derive(Debug, Clone, Copy, PartialEq, Eq, Structural)]
pub enum Error {
    /// The connection failed or ended mid-frame.
    Io,
    InvalidFrame,
    Unmasked,
    InvalidUtf8,
    UnsupportedOpcode(u8),
    TooLarge,
}

impl Error {
    /// The RFC 6455 s7.4.1 close status code that answers the failure.
    pub fn close_code(&self) -> (r: Option<u16>)
        ensures
            r == error_close_code(*self),
    {
        match self {
            Error::Io => None,
            Error::InvalidFrame | Error::Unmasked | Error::UnsupportedOpcode(_) => Some(1002),
            Error::InvalidUtf8 => Some(1007),
            Error::TooLarge => Some(1009),
        }
    }
}

/// A lower-case hexadecimal digit of a value below 16.
pub open spec fn hex_digit_lower(v: u8) -> char {
    if v < 10 {
        ((48 + v) as u8) as char
    } else {
        ((87 + v) as u8) as char
    }
}

/// A byte in lower-case hexadecimal without leading zeros.
pub open spec fn hex_lower(b: u8) -> Seq<char> {
    if b < 16 {
        seq![hex_digit_lower(b)]
    } else {
        seq![hex_digit_lower(b / 16), hex_digit_lower(b % 16)]
    }
}

/// The description of a failure.
pub open spec fn error_message(e: Error) -> Seq<char> {
    match e {
        Error::Io => "WebSocket connection failed"@,
        Error::InvalidFrame => "Invalid WebSocket frame"@,
        Error::Unmasked => "Unmasked WebSocket client frame"@,
        Error::InvalidUtf8 => "Invalid UTF-8 in WebSocket message"@,
        Error::UnsupportedOpcode(op) => "Unsupported opcode: 0x"@ + hex_lower(op),
        Error::TooLarge => "WebSocket message too large"@,
    }
}

fn hex_digit_lower_exec(v: u8) -> (c: char)
    requires
        v < 16,
    ensures
        c == hex_digit_lower(v),
{
    if v < 10 {
        (48 + v) as char
    } else {
        (87 + v) as char
    }
}

impl Error {
    /// Describes the failure.
    pub fn message(&self) -> (s: String)
        ensures
            s@ == error_message(*self),
    {
        match self {
            Error::Io => "WebSocket connection failed".to_owned(),
            Error::InvalidFrame => "Invalid WebSocket frame".to_owned(),
            Error::Unmasked => "Unmasked WebSocket client frame".to_owned(),
            Error::InvalidUtf8 => "Invalid UTF-8 in WebSocket message".to_owned(),
            Error::UnsupportedOpcode(op) => {
                let mut c = crate::text::chars_of("Unsupported opcode: 0x");
                if *op < 16 {
                    c.push(hex_digit_lower_exec(*op));
                } else {
                    c.push(hex_digit_lower_exec(*op / 16));
                    c.push(hex_digit_lower_exec(*op % 16));
                }
                crate::text::string_from_chars(c.as_slice())
            },
            Error::TooLarge => "WebSocket message too large".to_owned(),
        }
    }
}

/// The RFC 6455 s7.4.1 close status code that answers a failure; none for
/// a connection failure.
pub open spec fn error_close_code(e: Error) -> Option<u16> {
    match e {
        Error::Io => None,
        Error::InvalidFrame | Error::Unmasked | Error::UnsupportedOpcode(_) => Some(1002u16),
        Error::InvalidUtf8 => Some(1007u16),
        Error::TooLarge => Some(1009u16),
    }
}

/// Closing a connection in state `closed` with status `code`: the status
/// of the Close frame to send, if any, and whether the connection is closed
/// after. Only an open connection sends a Close frame; every close leaves it
/// closed.
pub open spec fn close_step(closed: bool, code: Option<u16>) -> (Option<u16>, bool) {
    if closed {
        (None, true)
    } else {
        (code, true)
    }
}

/// Closing twice sends one Close frame: the second close sends nothing.
pub proof fn lemma_close_idempotent(closed: bool, first: Option<u16>, second: Option<u16>)
    ensures
        close_step(close_step(closed, first).1, second).0 is None,
        close_step(close_step(closed, first).1, second).1,
{
}

/// Whether a WebSocket connection is still open, and what each way of
/// closing it sends.
pub struct CloseState {
    closed: bool,
}

impl CloseState {
    /// Whether the connection is closed.
    pub closed spec fn is_closed(&self) -> bool {
        self.closed
    }

    /// An open connection.
    pub fn new() -> (st: Self)
        ensures
            !st.is_closed(),
    {
        CloseState { closed: false }
    }

    /// Whether a data message may be sent (or received): only while open.
    pub fn is_open(&self) -> (r: bool)
        ensures
            r == !self.is_closed(),
    {
        !self.closed
    }

    /// Closes with `code`: 1000 when this side closes, 1001 when the server
    /// shuts down, or the status the peer's Close asked to echo. Gives the
    /// status of the Close frame to send, none if already closed.
    pub fn close(&mut self, code: u16) -> (r: Option<u16>)
        ensures
            (r, final(self).is_closed()) == close_step(old(self).is_closed(), Some(code)),
    {
        let r = if self.closed { None } else { Some(code) };
        self.closed = true;
        r
    }

    /// The connection failed with `e`: the status of the Close frame that
    /// answers it, none if the failure has no status or the connection is
    /// already closed.
    pub fn fail(&mut self, e: Error) -> (r: Option<u16>)
        ensures
            (r, final(self).is_closed()) == close_step(old(self).is_closed(), error_close_code(e)),
    {
        let code = e.close_code();
        let r = if self.closed { None } else { code };
        self.closed = true;
        r
    }
}

/// A frame received from a client, unmasked.
#[derive(Debug)]
pub struct Frame {
    pub fin: bool,
    pub opcode: Opcode,
    pub data: Vec<u8>,
}

/// The big-endian value of two bytes.
pub open spec fn be16_value(b0: u8, b1: u8) -> nat {
    (b0 as nat) * 256 + (b1 as nat)
}

/// The big-endian value of bytes.
pub open spec fn be_value(s: Seq<u8>) -> nat
    decreases s.len(),
{
    if s.len() == 0 {
        0
    } else {
        be_value(s.drop_last()) * 256 + (s.last() as nat)
    }
}

/// `data` with each byte XORed with the masking key byte at its position modulo 4.
pub open spec fn unmask_spec(key: Seq<u8>, data: Seq<u8>) -> Seq<u8> {
    Seq::new(data.len(), |i: int| data[i] ^ key[i % 4])
}

/// What the first byte of a frame says: FIN and the opcode. Reserved bits are
/// refused (no extension is negotiated), and so are unknown opcodes.
pub open spec fn first_byte_spec(b0: u8) -> Result<(bool, Opcode), Error> {
    if b0 & 0x70 != 0 {
        Err(Error::InvalidFrame)
    } else {
        match opcode_of(b0 & 0x0f) {
            None => Err(Error::UnsupportedOpcode(b0 & 0x0f)),
            Some(op) => Ok((b0 & 0x80 != 0, op)),
        }
    }
}

/// The opcode of a value, if any.
pub open spec fn opcode_of(v: u8) -> Option<Opcode> {
    if v == 0 {
        Some(Opcode::Continuation)
    } else if v == 1 {
        Some(Opcode::Text)
    } else if v == 2 {
        Some(Opcode::Binary)
    } else if v == 8 {
        Some(Opcode::Close)
    } else if v == 9 {
        Some(Opcode::Ping)
    } else if v == 10 {
        Some(Opcode::Pong)
    } else {
        None
    }
}

/// What the second byte of a frame says: the 7-bit length. Client frames
/// must be masked; control frames must be short and unfragmented.
pub open spec fn second_byte_spec(fin: bool, op: Opcode, b1: u8) -> Result<u8, Error> {
    if b1 & 0x80 == 0 {
        Err(Error::Unmasked)
    } else if op.control() && ((b1 & 0x7f) > 125 || !fin) {
        Err(Error::InvalidFrame)
    } else {
        Ok(b1 & 0x7f)
    }
}

/// The number of extended length bytes that follow a 7-bit length.
pub open spec fn ext_len_count(short: u8) -> nat {
    if short == 126 {
        2
    } else if short == 127 {
        8
    } else {
        0
    }
}

/// The payload length given the 7-bit length and its extension. Lengths must
/// use the shortest form, the 64-bit form must have its top bit clear, and a
/// data frame must fit in `max_len`.
pub open spec fn payload_len_spec(op: Opcode, short: u8, ext: Seq<u8>, max_len: nat) -> Result<nat, Error> {
    let n = if short == 126 || short == 127 { be_value(ext) } else { short as nat };
    if short == 126 && n < 126 {
        Err(Error::InvalidFrame)
    } else if short == 127 && (n >= 0x8000_0000_0000_0000 || n <= 65535) {
        Err(Error::InvalidFrame)
    } else if short == 127 && n > usize::MAX {
        Err(Error::TooLarge)
    } else if !op.control() && n > max_len {
        Err(Error::TooLarge)
    } else {
        Ok(n)
    }
}

/// The first client frame in `bytes`: FIN, opcode and unmasked payload, and
/// the number of bytes it takes; `Io` if the bytes end before the frame does.
pub open spec fn frame_spec(bytes: Seq<u8>, max_len: nat) -> Result<(bool, Opcode, Seq<u8>, nat), Error> {
    if bytes.len() < 1 {
        Err(Error::Io)
    } else {
        match first_byte_spec(bytes[0]) {
            Err(e) => Err(e),
            Ok((fin, op)) => if bytes.len() < 2 {
                Err(Error::Io)
            } else {
                match second_byte_spec(fin, op, bytes[1]) {
                    Err(e) => Err(e),
                    Ok(short) => {
                        let k = ext_len_count(short);
                        if bytes.len() < 2 + k {
                            Err(Error::Io)
                        } else {
                            match payload_len_spec(op, short, bytes.subrange(2, 2 + k as int), max_len) {
                                Err(e) => Err(e),
                                Ok(n) => if bytes.len() < 2 + k + 4 + n {
                                    Err(Error::Io)
                                } else {
                                    let key = bytes.subrange(2 + k as int, 6 + k as int);
                                    let data = bytes.subrange(6 + k as int, (6 + k + n) as int);
                                    Ok((fin, op, unmask_spec(key, data), 6 + k + n))
                                },
                            }
                        }
                    },
                }
            },
        }
    }
}

/// Checks the first byte of a client frame.
pub fn check_first_byte(b0: u8) -> (r: Result<(bool, Opcode), Error>)
    ensures
        r == first_byte_spec(b0),
{
    if b0 & 0x70 != 0 {
        return Err(Error::InvalidFrame);
    }
    let fin = b0 & 0x80 != 0;
    match Opcode::from_u8(b0 & 0x0f) {
        Ok(op) => {
            assert(opcode_of(b0 & 0x0f) == Some(op)) by {
                match op {
                    Opcode::Continuation => {},
                    Opcode::Text => {},
                    Opcode::Binary => {},
                    Opcode::Close => {},
                    Opcode::Ping => {},
                    Opcode::Pong => {},
                }
            }
            Ok((fin, op))
        },
        Err(e) => {
            assert(opcode_of(b0 & 0x0f) is None) by {
                let v = b0 & 0x0f;
                if v == 0 {
                    assert(Opcode::Continuation.value() == v);
                } else if v == 1 {
                    assert(Opcode::Text.value() == v);
                } else if v == 2 {
                    assert(Opcode::Binary.value() == v);
                } else if v == 8 {
                    assert(Opcode::Close.value() == v);
                } else if v == 9 {
                    assert(Opcode::Ping.value() == v);
                } else if v == 10 {
                    assert(Opcode::Pong.value() == v);
                }
            }
            Err(e)
        },
    }
}

/// Checks the second byte of a client frame; returns the 7-bit length.
pub fn check_second_byte(fin: bool, op: Opcode, b1: u8) -> (r: Result<u8, Error>)
    ensures
        r == second_byte_spec(fin, op, b1),
{
    if b1 & 0x80 == 0 {
        return Err(Error::Unmasked);
    }
    let short = b1 & 0x7f;
    if op.is_control() && (short > 125 || !fin) {
        return Err(Error::InvalidFrame);
    }
    Ok(short)
}

/// The number of extended length bytes that follow a 7-bit length.
pub fn ext_len_bytes(short: u8) -> (n: usize)
    ensures
        n == ext_len_count(short),
{
    if short == 126 {
        2
    } else if short == 127 {
        8
    } else {
        0
    }
}

fn be_read(s: &[u8]) -> (r: u64)
    requires
        s@.len() <= 8,
    ensures
        r == be_value(s@),
{
    let mut v: u64 = 0;
    let mut i: usize = 0;
    while i < s.len()
        invariant
            i <= s@.len() <= 8,
            v == be_value(s@.take(i as int)),
            be_value(s@.take(i as int)) < pow256(i as nat),
        decreases s@.len() - i,
    {
        assert(s@.take(i + 1).drop_last() =~= s@.take(i as int));
        proof {
            lemma_pow256_bound(i as nat);
        }
        v = v * 256 + s[i] as u64;
        i = i + 1;
    }
    assert(s@.take(s@.len() as int) =~= s@);
    v
}

/// `256^n`.
pub open spec fn pow256(n: nat) -> nat
    decreases n,
{
    if n == 0 {
        1
    } else {
        256 * pow256((n - 1) as nat)
    }
}

proof fn lemma_pow256_bound(n: nat)
    requires
        n < 8,
    ensures
        pow256(n) * 256 <= 0x1_0000_0000_0000_0000,
        pow256(n + 1) == pow256(n) * 256,
{
    reveal_with_fuel(pow256, 9);
    if n == 0 {
    } else if n == 1 {
    } else if n == 2 {
    } else if n == 3 {
    } else if n == 4 {
    } else if n == 5 {
    } else if n == 6 {
    } else {
        assert(n == 7);
    }
}

/// The payload length from the 7-bit length and its extension bytes.
pub fn payload_len(op: Opcode, short: u8, ext: &[u8], max_len: usize) -> (r: Result<usize, Error>)
    requires
        ext@.len() == ext_len_count(short),
    ensures
        match r {
            Ok(n) => payload_len_spec(op, short, ext@, max_len as nat) == Ok::<nat, Error>(n as nat),
            Err(e) => payload_len_spec(op, short, ext@, max_len as nat) == Err::<nat, Error>(e),
        },
{
    let n: usize = if short == 126 {
        let v = be_read(ext);
        if v < 126 {
            return Err(Error::InvalidFrame);
        }
        assert(v <= 65535) by {
            reveal_with_fuel(be_value, 3);
            assert(ext@.drop_last().drop_last().len() == 0);
        }
        v as usize
    } else if short == 127 {
        let v = be_read(ext);
        if v >= 0x8000_0000_0000_0000 || v <= 65535 {
            return Err(Error::InvalidFrame);
        }
        if v > usize::MAX as u64 {
            return Err(Error::TooLarge);
        }
        v as usize
    } else {
        short as usize
    };
    if !op.is_control() && n > max_len {
        return Err(Error::TooLarge);
    }
    Ok(n)
}

/// Unmasks a payload with a masking key.
pub fn unmask(key: &[u8], data: &mut Vec<u8>)
    requires
        key@.len() == 4,
    ensures
        final(data)@ == unmask_spec(key@, old(data)@),
{
    let ghost orig = data@;
    let mut i: usize = 0;
    while i < data.len()
        invariant
            key@.len() == 4,
            data@.len() == orig.len(),
            i <= data@.len(),
            forall|j: int| 0 <= j < i ==> data@[j] == orig[j] ^ key@[j % 4],
            forall|j: int| i <= j < data@.len() ==> data@[j] == orig[j],
        decreases data@.len() - i,
    {
        let b = data[i] ^ key[i % 4];
        data.set(i, b);
        i = i + 1;
    }
    assert(data@ =~= unmask_spec(key@, orig));
}

/// Reads one client frame from the start of `bytes`.
/// Enforces RFC 6455 rules: no RSV bits (no extension is negotiated), client
/// frames must be masked, control frames must be short and unfragmented,
/// lengths must use the minimal encoding, data frames must fit in `max_len`.
pub fn read_frame(bytes: &[u8], max_len: usize) -> (r: Result<Frame, Error>)
    ensures
        match r {
            Ok(f) => frame_spec(bytes@, max_len as nat) matches Ok((fin, op, data, _)) && f.fin == fin && f.opcode == op && f.data@ == data,
            Err(e) => frame_spec(bytes@, max_len as nat) == Err::<(bool, Opcode, Seq<u8>, nat), Error>(e),
        },
{
    let n = bytes.len();
    if n < 1 {
        return Err(Error::Io);
    }
    let (fin, op) = check_first_byte(bytes[0])?;
    if n < 2 {
        return Err(Error::Io);
    }
    let short = check_second_byte(fin, op, bytes[1])?;
    let k = ext_len_bytes(short);
    if n - 2 < k {
        return Err(Error::Io);
    }
    let ext = vstd::slice::slice_subrange(bytes, 2, 2 + k);
    let len = payload_len(op, short, ext, max_len)?;
    if n - 2 - k < 4 || n - 2 - k - 4 < len {
        return Err(Error::Io);
    }
    let key = vstd::slice::slice_subrange(bytes, 2 + k, 6 + k);
    let mut data: Vec<u8> = Vec::new();
    let mut i: usize = 0;
    while i < len
        invariant
            i <= len,
            6 + k + len <= n,
            n == bytes@.len(),
            data@ == bytes@.subrange(6 + k as int, 6 + k + i),
        decreases len - i,
    {
        data.push(bytes[6 + k + i]);
        assert(bytes@.subrange(6 + k as int, 6 + k + i + 1) =~= bytes@.subrange(6 + k as int, 6 + k + i).push(bytes@[6 + k + i]));
        i = i + 1;
    }
    unmask(key, &mut data);
    Ok(Frame { fin, opcode: op, data })
}

// ----------------------------------------------------------------------------
// Sending frames

/// The `k` big-endian bytes of `v` modulo `256^k`.
pub open spec fn be_bytes(v: nat, k: nat) -> Seq<u8>
    decreases k,
{
    if k == 0 {
        Seq::empty()
    } else {
        be_bytes(v / 256, (k - 1) as nat).push((v % 256) as u8)
    }
}

/// The header of an unmasked server frame with a payload of `len` bytes:
/// FIN and opcode, then the length in the shortest form.
pub open spec fn frame_header_spec(op: Opcode, fin: bool, len: nat) -> Seq<u8> {
    let b0 = ((if fin { 0x80u8 } else { 0u8 }) | op.value()) as u8;
    if len < 126 {
        seq![b0, len as u8]
    } else if len <= 65535 {
        seq![b0, 126u8] + be_bytes(len, 2)
    } else {
        seq![b0, 127u8] + be_bytes(len, 8)
    }
}

fn push_be(out: &mut Vec<u8>, v: u64, k: usize)
    ensures
        final(out)@ == old(out)@ + be_bytes(v as nat, k as nat),
    decreases k,
{
    if k > 0 {
        push_be(out, v / 256, k - 1);
        out.push((v % 256) as u8);
    }
}

/// Appends one unmasked server frame (header and payload) to `out`.
pub fn send_frame(out: &mut Vec<u8>, opcode: Opcode, data: &[u8], fin: bool)
    ensures
        final(out)@ == old(out)@ + frame_header_spec(opcode, fin, data@.len()) + data@,
{
    let byte1: u8 = (if fin { 0x80u8 } else { 0x00u8 }) | (opcode.as_u8() & 0x0f);
    assert(opcode.value() & 0x0f == opcode.value()) by {
        let v = opcode.value();
        assert(v < 16);
        assert(v < 16 ==> v & 0x0f == v) by (bit_vector);
    }
    out.push(byte1);
    let len = data.len();
    if len < 126 {
        out.push(len as u8);
    } else if len <= 65535 {
        out.push(126);
        push_be(out, len as u64, 2);
    } else {
        out.push(127);
        push_be(out, len as u64, 8);
    }
    let ghost head = out@;
    let mut i: usize = 0;
    while i < len
        invariant
            i <= len,
            len == data@.len(),
            out@ == head + data@.take(i as int),
        decreases len - i,
    {
        out.push(data[i]);
        assert(data@.take(i + 1) =~= data@.take(i as int).push(data@[i as int]));
        i = i + 1;
    }
    assert(data@.take(len as int) =~= data@);
    assert(final(out)@ =~= old(out)@ + frame_header_spec(opcode, fin, data@.len()) + data@);
}

/// The big-endian bytes of a value read back give the value.
pub proof fn lemma_be_roundtrip(v: nat, k: nat)
    requires
        v < pow256(k),
    ensures
        be_value(be_bytes(v, k)) == v,
        be_bytes(v, k).len() == k,
    decreases k,
{
    if k > 0 {
        assert(v / 256 < pow256((k - 1) as nat)) by (nonlinear_arith)
            requires
                v < pow256(k),
                pow256(k) == 256 * pow256((k - 1) as nat),
        ;
        lemma_be_roundtrip(v / 256, (k - 1) as nat);
        assert(be_bytes(v, k).drop_last() =~= be_bytes(v / 256, (k - 1) as nat));
    }
}

/// A frame as a client sends it: the header the server would write, with
/// the mask bit set, then the masking key and the masked payload.
pub open spec fn client_frame_spec(op: Opcode, fin: bool, payload: Seq<u8>, key: Seq<u8>) -> Seq<u8> {
    let h = frame_header_spec(op, fin, payload.len());
    h.update(1, h[1] | 0x80u8) + key + unmask_spec(key, payload)
}

/// Masking twice with the same key gives the payload back.
pub proof fn lemma_unmask_involutive(key: Seq<u8>, data: Seq<u8>)
    requires
        key.len() == 4,
    ensures
        unmask_spec(key, unmask_spec(key, data)) == data,
{
    assert forall|i: int| 0 <= i < data.len() implies #[trigger] unmask_spec(key, unmask_spec(key, data))[i] == data[i] by {
        let a = data[i];
        let k = key[i % 4];
        assert((a ^ k) ^ k == a) by (bit_vector);
    }
    assert(unmask_spec(key, unmask_spec(key, data)) =~= data);
}

proof fn lemma_first_byte(op: Opcode, fin: bool)
    ensures
        first_byte_spec(((if fin { 0x80u8 } else { 0u8 }) | op.value()) as u8) == Ok::<(bool, Opcode), Error>((fin, op)),
{
    let v = op.value();
    lemma_opcode_roundtrip(op, op);
    let b0 = ((if fin { 0x80u8 } else { 0u8 }) | v) as u8;
    if fin {
        assert(b0 == 0x80u8 | v);
        assert(v < 16 ==> (0x80u8 | v) & 0x70 == 0 && (0x80u8 | v) & 0x0f == v && (0x80u8 | v) & 0x80 != 0) by (bit_vector);
    } else {
        assert(b0 == 0u8 | v);
        assert(v < 16 ==> (0u8 | v) & 0x70 == 0 && (0u8 | v) & 0x0f == v && (0u8 | v) & 0x80 == 0) by (bit_vector);
    }
    assert(opcode_of(v) == Some(op)) by {
        match op {
            Opcode::Continuation => {},
            Opcode::Text => {},
            Opcode::Binary => {},
            Opcode::Close => {},
            Opcode::Ping => {},
            Opcode::Pong => {},
        }
    }
}

/// A frame that a client sends, within the limits, is read back: its FIN
/// bit, its opcode and its payload, taking exactly its own bytes whatever
/// follows it.
pub proof fn lemma_frame_roundtrip(op: Opcode, fin: bool, payload: Seq<u8>, key: Seq<u8>, rest: Seq<u8>, max_len: nat)
    requires
        key.len() == 4,
        op.control() ==> fin && payload.len() <= 125,
        !op.control() ==> payload.len() <= max_len,
        payload.len() <= usize::MAX,
        payload.len() < 0x8000_0000_0000_0000,
    ensures
        frame_spec(client_frame_spec(op, fin, payload, key) + rest, max_len) == Ok::<(bool, Opcode, Seq<u8>, nat), Error>(
            (fin, op, payload, client_frame_spec(op, fin, payload, key).len()),
        ),
{
    let len = payload.len();
    let h = frame_header_spec(op, fin, len);
    let frame = client_frame_spec(op, fin, payload, key);
    let bytes = frame + rest;
    let b0 = ((if fin { 0x80u8 } else { 0u8 }) | op.value()) as u8;
    lemma_first_byte(op, fin);
    let l: u8 = if len < 126 { len as u8 } else if len <= 65535 { 126u8 } else { 127u8 };
    let k = ext_len_count(l);
    reveal_with_fuel(pow256, 9);
    assert(pow256(2) == 65536);
    assert(pow256(8) == 0x1_0000_0000_0000_0000);
    if len < 126 {
        assert(h =~= seq![b0, l]);
    } else if len <= 65535 {
        lemma_be_roundtrip(len, 2);
        assert(h =~= seq![b0, l] + be_bytes(len, 2));
    } else {
        lemma_be_roundtrip(len, 8);
        assert(h =~= seq![b0, l] + be_bytes(len, 8));
    }
    assert(h.len() == 2 + k);
    let b1 = l | 0x80u8;
    assert(l < 128 ==> (l | 0x80u8) & 0x80 != 0 && (l | 0x80u8) & 0x7f == l) by (bit_vector);
    assert(bytes[0] == b0);
    assert(bytes[1] == b1);
    assert(second_byte_spec(fin, op, b1) == Ok::<u8, Error>(l));
    let ext = bytes.subrange(2, 2 + k as int);
    if len >= 126 {
        assert(ext =~= be_bytes(len, k));
    }
    assert(payload_len_spec(op, l, ext, max_len) == Ok::<nat, Error>(len));
    assert(bytes.subrange(2 + k as int, 6 + k as int) =~= key);
    assert(bytes.subrange(6 + k as int, (6 + k + len) as int) =~= unmask_spec(key, payload));
    lemma_unmask_involutive(key, payload);
    assert(frame.len() == 6 + k + len);
}

// ----------------------------------------------------------------------------
// Messages

/// A WebSocket data message.
#[derive(Debug, Clone, PartialEq, Eq)]
pub enum Message {
    Text(String),
    Binary(Vec<u8>),
}

/// The result of waiting for a message.
#[derive(Debug)]
pub enum Recv {
    /// A data message arrived.
    Message(Message),
    /// The connection is closed.
    Closed,
    /// No message arrived within the timeout.
    Timeout,
}

/// A data message being reassembled from fragments.
pub struct Partial {
    /// Whether it is a text message.
    pub text: bool,
    /// The payload so far.
    pub data: Vec<u8>,
}

/// What to do with a frame.
pub enum Step {
    /// Answer a Ping with a Pong carrying this payload; the message being
    /// reassembled, if any, stays.
    Pong(Vec<u8>, Option<Partial>),
    /// Nothing to send or deliver; the message being reassembled, if any.
    Keep(Option<Partial>),
    /// The peer closed: echo this status code (or fail), then report closed.
    Close(Result<u16, Error>),
    /// A message is complete.
    Deliver(Message),
    /// The peer broke the protocol.
    Fail(Error),
}

/// The meaning of a `Step`.
pub enum StepView {
    Pong(Seq<u8>, Option<(bool, Seq<u8>)>),
    Keep(Option<(bool, Seq<u8>)>),
    Close(Result<u16, Error>),
    DeliverText(Seq<char>),
    DeliverBinary(Seq<u8>),
    Fail(Error),
}

/// The contents of a partial message.
pub open spec fn partial_view(p: Option<Partial>) -> Option<(bool, Seq<u8>)> {
    match p {
        Some(p) => Some((p.text, p.data@)),
        None => None,
    }
}

impl View for Step {
    type V = StepView;

    open spec fn view(&self) -> StepView {
        match self {
            Step::Pong(d, p) => StepView::Pong(d@, partial_view(*p)),
            Step::Keep(p) => StepView::Keep(partial_view(*p)),
            Step::Close(r) => StepView::Close(*r),
            Step::Deliver(Message::Text(t)) => StepView::DeliverText(t@),
            Step::Deliver(Message::Binary(b)) => StepView::DeliverBinary(b@),
            Step::Fail(e) => StepView::Fail(*e),
        }
    }
}

/// The status code to echo when the peer closes with this payload: its first
/// two bytes, 1000 if it is empty; a one-byte payload is invalid.
pub open spec fn close_reply_spec(payload: Seq<u8>) -> Result<u16, Error> {
    if payload.len() == 0 {
        Ok(1000)
    } else if payload.len() == 1 {
        Err(Error::InvalidFrame)
    } else {
        Ok(be16_value(payload[0], payload[1]) as u16)
    }
}

/// A complete message: text must be UTF-8.
pub open spec fn finish_spec(text: bool, data: Seq<u8>) -> StepView {
    if text {
        if valid_utf8(data) {
            StepView::DeliverText(decode_utf8(data))
        } else {
            StepView::Fail(Error::InvalidUtf8)
        }
    } else {
        StepView::DeliverBinary(data)
    }
}

/// What a frame leads to, given the message being reassembled (if any).
/// Pings are answered, pongs ignored, a Close ends the connection; a data
/// frame starts a message, continuation frames extend it up to
/// `max_message_size`, and the final fragment completes it.
pub open spec fn step_spec(pv: Option<(bool, Seq<u8>)>, fin: bool, op: Opcode, data: Seq<u8>, max: nat) -> StepView {
    match op {
        Opcode::Ping => StepView::Pong(data, pv),
        Opcode::Pong => StepView::Keep(pv),
        Opcode::Close => StepView::Close(close_reply_spec(data)),
        Opcode::Continuation => match pv {
            None => StepView::Fail(Error::InvalidFrame),
            Some((t, d)) => if d.len() + data.len() > max {
                StepView::Fail(Error::TooLarge)
            } else if fin {
                finish_spec(t, d + data)
            } else {
                StepView::Keep(Some((t, d + data)))
            },
        },
        _ => match pv {
            Some(_) => StepView::Fail(Error::InvalidFrame),
            None => if fin {
                finish_spec(op is Text, data)
            } else {
                StepView::Keep(Some((op is Text, data)))
            },
        },
    }
}

/// A data frame that is not part of a message in progress starts a message
/// of its own kind. When it is final it is the whole message: a Binary frame
/// delivers its payload as bytes, whatever they are; a Text frame delivers
/// the characters its payload encodes, and fails with `InvalidUtf8` when the
/// payload is not UTF-8. When it is not final, its kind and payload are kept.
pub proof fn lemma_first_data_frame(data: Seq<u8>, max: nat)
    ensures
        step_spec(None, true, Opcode::Binary, data, max) == StepView::DeliverBinary(data),
        valid_utf8(data) ==> step_spec(None, true, Opcode::Text, data, max) == StepView::DeliverText(decode_utf8(data)),
        !valid_utf8(data) ==> step_spec(None, true, Opcode::Text, data, max) == StepView::Fail(Error::InvalidUtf8),
        step_spec(None, false, Opcode::Binary, data, max) == StepView::Keep(Some((false, data))),
        step_spec(None, false, Opcode::Text, data, max) == StepView::Keep(Some((true, data))),
{
}

/// A message completed by its final fragment has the kind of its first
/// fragment: bytes for a Binary message, the decoded characters for a Text
/// message, which fails with `InvalidUtf8` when the bytes are not UTF-8.
pub proof fn lemma_message_kind(data: Seq<u8>)
    ensures
        finish_spec(false, data) == StepView::DeliverBinary(data),
        valid_utf8(data) ==> finish_spec(true, data) == StepView::DeliverText(decode_utf8(data)),
        !valid_utf8(data) ==> finish_spec(true, data) == StepView::Fail(Error::InvalidUtf8),
{
}

/// Feeds frames, in order, to `step_spec` from the message state `pv`,
/// going on while a step only continues a message or answers a ping: the
/// first other step, or the message state after the last frame.
pub open spec fn feed_frames(pv: Option<(bool, Seq<u8>)>, frames: Seq<(bool, Opcode, Seq<u8>)>, max: nat) -> StepView
    decreases frames.len(),
{
    if frames.len() == 0 {
        StepView::Keep(pv)
    } else {
        match step_spec(pv, frames[0].0, frames[0].1, frames[0].2, max) {
            StepView::Keep(p) => feed_frames(p, frames.drop_first(), max),
            StepView::Pong(_, p) => feed_frames(p, frames.drop_first(), max),
            other => other,
        }
    }
}

/// The payloads of the continuation frames, concatenated in order.
pub open spec fn continuation_payload(frames: Seq<(bool, Opcode, Seq<u8>)>) -> Seq<u8>
    decreases frames.len(),
{
    if frames.len() == 0 {
        Seq::empty()
    } else if frames[0].1 is Continuation {
        frames[0].2 + continuation_payload(frames.drop_first())
    } else {
        continuation_payload(frames.drop_first())
    }
}

/// The frames that follow the first fragment of a message: continuation
/// frames, the last one final and no other, with pings and pongs anywhere
/// before the last.
pub open spec fn fragments_rest(frames: Seq<(bool, Opcode, Seq<u8>)>) -> bool {
    &&& frames.len() >= 1
    &&& frames.last().0 && frames.last().1 is Continuation
    &&& forall|i: int|
        0 <= i < frames.len() - 1 ==> (#[trigger] frames[i].1 is Continuation && !frames[i].0) || frames[i].1 is Ping
            || frames[i].1 is Pong
}

proof fn lemma_feed_continues(t: bool, acc: Seq<u8>, frames: Seq<(bool, Opcode, Seq<u8>)>, max: nat)
    requires
        fragments_rest(frames),
        acc.len() + continuation_payload(frames).len() <= max,
    ensures
        feed_frames(Some((t, acc)), frames, max) == finish_spec(t, acc + continuation_payload(frames)),
    decreases frames.len(),
{
    let (fin, op, d) = frames[0];
    let rest = frames.drop_first();
    if frames.len() == 1 {
        assert(frames[0] == frames.last());
        assert(continuation_payload(rest) =~= Seq::<u8>::empty());
        assert(continuation_payload(frames) =~= d);
    } else {
        assert(fragments_rest(rest)) by {
            assert(rest.last() == frames.last());
            assert forall|i: int| 0 <= i < rest.len() - 1 implies (#[trigger] rest[i].1 is Continuation && !rest[i].0)
                || rest[i].1 is Ping || rest[i].1 is Pong by {
                assert(rest[i] == frames[i + 1]);
            }
        }
        assert(frames[0].1 is Continuation && !frames[0].0 || frames[0].1 is Ping || frames[0].1 is Pong);
        if op is Continuation {
            lemma_feed_continues(t, acc + d, rest, max);
            assert(acc + d + continuation_payload(rest) =~= acc + continuation_payload(frames));
        } else {
            lemma_feed_continues(t, acc, rest, max);
        }
    }
}

/// A message sent in fragments, with pings and pongs between them, is
/// delivered whole once its final fragment arrives, provided it fits in
/// `max`: the first fragment's payload followed by those of the
/// continuation frames, as text if it began as a text frame.
pub proof fn lemma_fragments_reassembled(op: Opcode, first: Seq<u8>, frames: Seq<(bool, Opcode, Seq<u8>)>, max: nat)
    requires
        op is Text || op is Binary,
        fragments_rest(frames),
        first.len() + continuation_payload(frames).len() <= max,
    ensures
        feed_frames(None, seq![(false, op, first)] + frames, max) == finish_spec(op is Text, first + continuation_payload(frames)),
{
    let all = seq![(false, op, first)] + frames;
    assert(all[0] == (false, op, first));
    assert(all.drop_first() =~= frames);
    lemma_feed_continues(op is Text, first, frames, max);
}

/// The status code to echo when the peer closes with `payload`.
pub fn close_reply_code(payload: &[u8]) -> (r: Result<u16, Error>)
    ensures
        r == close_reply_spec(payload@),
{
    match payload.len() {
        0 => Ok(1000),
        1 => Err(Error::InvalidFrame),
        _ => Ok((payload[0] as u16) * 256 + payload[1] as u16),
    }
}

fn finish(text: bool, data: Vec<u8>) -> (r: Step)
    ensures
        r@ == finish_spec(text, data@),
{
    if text {
        match string_from_utf8(data) {
            Some(t) => Step::Deliver(Message::Text(t)),
            None => Step::Fail(Error::InvalidUtf8),
        }
    } else {
        Step::Deliver(Message::Binary(data))
    }
}

/// Decides what a received frame leads to, given the message being
/// reassembled (if any).
pub fn on_frame(partial: Option<Partial>, frame: Frame, max_message_size: usize) -> (r: Step)
    ensures
        r@ == step_spec(partial_view(partial), frame.fin, frame.opcode, frame.data@, max_message_size as nat),
{
    let ghost pv = partial_view(partial);
    let ghost fd = frame.data@;
    match frame.opcode {
        Opcode::Ping => Step::Pong(frame.data, partial),
        Opcode::Pong => Step::Keep(partial),
        Opcode::Close => Step::Close(close_reply_code(frame.data.as_slice())),
        Opcode::Continuation => match partial {
            None => Step::Fail(Error::InvalidFrame),
            Some(p) => {
                let Partial { text, mut data } = p;
                if data.len() > max_message_size || frame.data.len() > max_message_size - data.len() {
                    return Step::Fail(Error::TooLarge);
                }
                let ghost d0 = data@;
                let mut i: usize = 0;
                while i < frame.data.len()
                    invariant
                        i <= fd.len(),
                        fd == frame.data@,
                        data@ == d0 + fd.take(i as int),
                    decreases fd.len() - i,
                {
                    data.push(frame.data[i]);
                    assert(fd.take(i + 1) =~= fd.take(i as int).push(fd[i as int]));
                    i = i + 1;
                }
                assert(fd.take(fd.len() as int) =~= fd);
                if frame.fin {
                    finish(text, data)
                } else {
                    Step::Keep(Some(Partial { text, data }))
                }
            },
        },
        Opcode::Text | Opcode::Binary => match partial {
            Some(_) => Step::Fail(Error::InvalidFrame),
            None => {
                let text = frame.opcode == Opcode::Text;
                if frame.fin {
                    finish(text, frame.data)
                } else {
                    Step::Keep(Some(Partial { text, data: frame.data }))
                }
            },
        },
    }
}

// ----------------------------------------------------------------------------
// Handshake

/// The key-derivation GUID of RFC 6455, as bytes.
pub open spec fn ws_guid() -> Seq<u8> {
    seq![
        50u8, 53u8, 56u8, 69u8, 65u8, 70u8, 65u8, 53u8, 45u8, 69u8, 57u8, 49u8, 52u8, 45u8, 52u8, 55u8, 68u8, 65u8,
        45u8, 57u8, 53u8, 67u8, 65u8, 45u8, 67u8, 53u8, 65u8, 66u8, 48u8, 68u8, 67u8, 56u8, 53u8, 66u8, 49u8, 49u8,
    ]
}

/// The `Sec-WebSocket-Accept` value for a key: Base64 of the SHA-1 of the
/// key followed by the GUID.
pub open spec fn accept_spec(key: Seq<char>) -> Seq<char> {
    ascii_chars(base64_spec(sha1_spec(encode_utf8(key) + ws_guid())))
}

/// Computes the `Sec-WebSocket-Accept` value for a `Sec-WebSocket-Key`.
pub fn compute_accept(sec_websocket_key: &str) -> (r: String)
    requires
        encode_utf8(sec_websocket_key@).len() < 0x1000_0000_0000_0000,
    ensures
        r@ == accept_spec(sec_websocket_key@),
{
    let guid: [u8; 36] = [
        50, 53, 56, 69, 65, 70, 65, 53, 45, 69, 57, 49, 52, 45, 52, 55, 68, 65, 45, 57, 53, 67, 65, 45, 67, 53, 65, 66,
        48, 68, 67, 56, 53, 66, 49, 49,
    ];
    assert(guid@ =~= ws_guid());
    let mut key: Vec<u8> = Vec::new();
    push_str(&mut key, sec_websocket_key);
    push_slice(&mut key, &guid);
    let hash = sha1(key.as_slice());
    encode(&hash)
}

/// The value of header `k` in `h`.
pub open spec fn header_value(h: HeadersView, k: Seq<char>) -> Seq<char> {
    h[key_index(h, k)].1
}

/// Whether the headers ask for a WebSocket upgrade of any version:
/// `Upgrade: websocket`, `Connection` listing `upgrade`, and a key.
pub open spec fn asks_upgrade(h: HeadersView) -> bool {
    &&& has_key(h, "upgrade"@)
    &&& lower(header_value(h, "upgrade"@)) == lower("websocket"@)
    &&& has_key(h, "connection"@)
    &&& any_token(header_value(h, "connection"@), "upgrade"@)
    &&& has_key(h, "sec-websocket-key"@)
}

/// Whether a request asks for a WebSocket upgrade (RFC 6455) this server speaks:
/// a GET asking for the upgrade with `Sec-WebSocket-Version: 13`.
pub open spec fn upgradable_spec(m: Method, h: HeadersView) -> bool {
    &&& m == Method::GET
    &&& asks_upgrade(h)
    &&& has_key(h, "sec-websocket-version"@)
    &&& header_value(h, "sec-websocket-version"@) == "13"@
}

fn header_is(h: &crate::fields::HeaderMap, key: &str, want: &str) -> (r: bool)
    ensures
        r == (has_key(h@, key@) && header_value(h@, key@) == want@),
{
    match h.get(key) {
        None => false,
        Some(v) => crate::text::str_eq(v.as_str(), want),
    }
}

impl Request {
    /// Returns `true` if this request asks for a WebSocket upgrade (RFC 6455).
    pub fn upgradable(&self) -> (r: bool)
        ensures
            r == upgradable_spec(self.method, self.headers@),
    {
        self.method == Method::GET && asks_upgrade_exec(self) && header_is(&self.headers, "sec-websocket-version", "13")
    }
}

fn asks_upgrade_exec(req: &Request) -> (r: bool)
    ensures
        r == asks_upgrade(req.headers@),
{
    let up = match req.headers.get("upgrade") {
        None => false,
        Some(v) => eq_ignore_ascii_case(v.as_str(), "websocket"),
    };
    let conn = match req.headers.get("connection") {
        None => false,
        Some(v) => has_token(v.as_str(), "upgrade"),
    };
    up && conn && req.headers.contains_key("sec-websocket-key")
}

/// How a WebSocket route answers a request: `Ok` to upgrade; `UpgradeRequired`
/// (426, advertising version 13) when the upgrade asks for another version;
/// `BadRequest` when the request is not an upgrade.
pub fn handshake_status(req: &Request) -> (r: Result<(), StatusCode>)
    ensures
        upgradable_spec(req.method, req.headers@) ==> r is Ok,
        !upgradable_spec(req.method, req.headers@) && req.method == Method::GET && asks_upgrade(req.headers@)
            ==> r == Err::<(), StatusCode>(StatusCode::UpgradeRequired),
        !upgradable_spec(req.method, req.headers@) && !(req.method == Method::GET && asks_upgrade(req.headers@))
            ==> r == Err::<(), StatusCode>(StatusCode::BadRequest),
{
    if req.upgradable() {
        Ok(())
    } else if req.method == Method::GET && asks_upgrade_exec(req) {
        Err(StatusCode::UpgradeRequired)
    } else {
        Err(StatusCode::BadRequest)
    }
}

/// The response that refuses an upgrade with `status`: empty, and for
/// `426 Upgrade Required` carrying `Sec-WebSocket-Version: 13`, the one
/// version this server speaks.
pub fn handshake_refusal(status: StatusCode) -> (r: Response)
    ensures
        status == StatusCode::UpgradeRequired ==> r@ == (ResponseView {
            status,
            content_type: None,
            headers: seq![("Sec-WebSocket-Version"@, "13"@)],
            body: Seq::empty(),
        }),
        status != StatusCode::UpgradeRequired ==> r@ == (ResponseView {
            status,
            content_type: None,
            headers: Seq::empty(),
            body: Seq::empty(),
        }),
{
    let r = Response::error(status);
    if status == StatusCode::UpgradeRequired {
        proof {
            reveal_strlit("Sec-WebSocket-Version");
            reveal_strlit("13");
            let c = "Sec-WebSocket-Version"@;
            assert(is_ascii_chars(c));
            is_ascii_chars_encode_utf8(c);
            assert forall|i: int| 0 <= i < encode_utf8(c).len() implies is_tchar(#[trigger] encode_utf8(c)[i]) by {
                assert(encode_utf8(c)[i] == c[i] as u8);
            }
            assert(valid_header_name(c));
            assert(valid_header_value("13"@)) by {
                if has_ctl("13"@) {
                    let i = choose|i: int| 0 <= i < "13"@.len() && ("13"@[i] == '\r' || "13"@[i] == '\n' || "13"@[i] == '\0');
                    assert(i == 0 || i == 1);
                }
            }
            assert(lower(c).len() == 21);
        }
        match (HeaderName::new("Sec-WebSocket-Version".to_owned()), HeaderValue::from_static("13")) {
            (Ok(n), Ok(v)) => r.with_header(n, v),
            _ => r,
        }
    } else {
        r
    }
}

/// The `101 Switching Protocols` response head that accepts an upgrade.
pub open spec fn upgrade_head_spec(key: Seq<char>, date: crate::date::CivilTime) -> Seq<u8> {
    encode_utf8("HTTP/1.1 101 Switching Protocols\r\nDate: "@) + http_text(date) + encode_utf8(
        "\r\nUpgrade: websocket\r\nConnection: Upgrade\r\nSec-WebSocket-Accept: "@,
    ) + encode_utf8(accept_spec(key)) + encode_utf8("\r\n\r\n"@)
}

/// Builds the response head that accepts a WebSocket upgrade.
pub fn upgrade_head(key: &str, date: &Date) -> (out: Vec<u8>)
    requires
        encode_utf8(key@).len() < 0x1000_0000_0000_0000,
    ensures
        out@ == upgrade_head_spec(key@, date@),
{
    let mut out: Vec<u8> = Vec::new();
    push_str(&mut out, "HTTP/1.1 101 Switching Protocols\r\nDate: ");
    let d = date.http();
    let ghost before = out@;
    push_str(&mut out, d.as_str());
    proof {
        crate::date::lemma_http_text_ascii(date@);
        crate::text::lemma_ascii_encode(d@, http_text(date@));
    }
    push_str(&mut out, "\r\nUpgrade: websocket\r\nConnection: Upgrade\r\nSec-WebSocket-Accept: ");
    let accept = compute_accept(key);
    push_str(&mut out, accept.as_str());
    push_str(&mut out, "\r\n\r\n");
    out
}

} // verus!
