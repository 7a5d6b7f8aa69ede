use tinyweb::date::Date;
use tinyweb::request::{parse_head, Request};
use tinyweb::types::{Method, StatusCode};
use tinyweb::ws::{
    close_reply_code, compute_accept, handshake_refusal, CloseState, handshake_status, on_frame, read_frame, send_frame, upgrade_head, Error, Frame,
    Message, Opcode, Partial, Step,
};

fn client_frame(b0: u8, payload: &[u8]) -> Vec<u8> {
    let key = [7u8, 42, 13, 200];
    let mut f = vec![b0];
    if payload.len() < 126 {
        f.push(0x80 | payload.len() as u8);
    } else if payload.len() <= u16::MAX as usize {
        f.push(0x80 | 126);
        f.extend_from_slice(&(payload.len() as u16).to_be_bytes());
    } else {
        f.push(0x80 | 127);
        f.extend_from_slice(&(payload.len() as u64).to_be_bytes());
    }
    f.extend_from_slice(&key);
    f.extend(payload.iter().enumerate().map(|(i, &b)| b ^ key[i % 4]));
    f
}

const TEST_MAX: usize = 1 << 20;

#[test]
fn test_compute_accept() {
    let key = "dGhlIHNhbXBsZSBub25jZQ==";
    let expected = "s3pPLMBiTxaQ9kYGzzhZRbK+xOo=";
    assert_eq!(compute_accept(key), expected);
}

#[test]
fn test_read_frame_roundtrip() {
    for len in [0, 5, 125, 126, 1000, 65535, 65536, 100_000] {
        let payload = vec![0xABu8; len];
        let bytes = client_frame(0x82, &payload);
        let frame = read_frame(&bytes, TEST_MAX).unwrap();
        assert!(frame.fin);
        assert_eq!(frame.opcode, Opcode::Binary);
        assert_eq!(frame.data, payload, "len {}", len);
    }
}

#[test]
fn test_read_frame_unmasks() {
    let bytes = client_frame(0x81, b"hello");
    let frame = read_frame(&bytes, TEST_MAX).unwrap();
    assert_eq!(frame.data, b"hello");
    assert!(!bytes.windows(5).any(|w| w == b"hello"));
}

#[test]
fn test_rejects_unmasked_frame() {
    let bytes = [0x81, 0x05, b'h', b'e', b'l', b'l', b'o'];
    assert!(matches!(read_frame(&bytes, TEST_MAX), Err(Error::Unmasked)));
}

#[test]
fn test_rejects_rsv_bits() {
    for rsv in [0x10, 0x20, 0x40] {
        let bytes = client_frame(0x81 | rsv, b"x");
        assert!(matches!(read_frame(&bytes, TEST_MAX), Err(Error::InvalidFrame)));
    }
}

#[test]
fn test_rejects_unsupported_opcode() {
    let bytes = client_frame(0x83, b"x");
    assert!(matches!(read_frame(&bytes, TEST_MAX), Err(Error::UnsupportedOpcode(0x3))));
}

#[test]
fn test_rejects_oversized_control_frame() {
    let bytes = client_frame(0x89, &[0u8; 126]);
    assert!(matches!(read_frame(&bytes, TEST_MAX), Err(Error::InvalidFrame)));
}

#[test]
fn test_rejects_fragmented_control_frame() {
    let bytes = client_frame(0x08, b"x");
    assert!(matches!(read_frame(&bytes, TEST_MAX), Err(Error::InvalidFrame)));
}

#[test]
fn test_allows_large_continuation_frame() {
    let bytes = client_frame(0x80, &[0u8; 1000]);
    let frame = read_frame(&bytes, TEST_MAX).unwrap();
    assert_eq!(frame.opcode, Opcode::Continuation);
    assert_eq!(frame.data.len(), 1000);
}

#[test]
fn test_rejects_nonminimal_length() {
    let mut bytes = vec![0x81, 0x80 | 126, 0, 5];
    bytes.extend_from_slice(&[7, 42, 13, 200]);
    bytes.extend(b"hello".iter().enumerate().map(|(i, &b)| b ^ [7u8, 42, 13, 200][i % 4]));
    assert!(matches!(read_frame(&bytes, TEST_MAX), Err(Error::InvalidFrame)));

    let mut bytes = vec![0x81, 0x80 | 127];
    bytes.extend_from_slice(&300u64.to_be_bytes());
    assert!(matches!(read_frame(&bytes, TEST_MAX), Err(Error::InvalidFrame)));
}

#[test]
fn test_rejects_length_msb() {
    let mut bytes = vec![0x81, 0x80 | 127];
    bytes.extend_from_slice(&(1u64 << 63 | 70000).to_be_bytes());
    assert!(matches!(read_frame(&bytes, TEST_MAX), Err(Error::InvalidFrame)));
}

#[test]
fn test_rejects_too_large_frame() {
    let bytes = client_frame(0x81, &[0u8; 100]);
    assert!(matches!(read_frame(&bytes, 64), Err(Error::TooLarge)));
}

#[test]
fn test_send_frame_lengths() {
    for (len, header_len) in [(5usize, 2usize), (126, 4), (65535, 4), (65536, 10)] {
        let mut out = Vec::new();
        send_frame(&mut out, Opcode::Binary, &vec![0u8; len], true);
        assert_eq!(out.len(), header_len + len, "payload len {}", len);
        assert_eq!(out[0], 0x82);
        assert_eq!(out[1] & 0x80, 0, "server frames are unmasked");
    }
}

#[test]
fn read_frame_needs_whole_frame() {
    let bytes = client_frame(0x81, b"hello");
    assert!(matches!(read_frame(&bytes[..bytes.len() - 1], TEST_MAX), Err(Error::Io)));
    assert!(matches!(read_frame(&[], TEST_MAX), Err(Error::Io)));
}

#[test]
fn close_codes_and_messages() {
    assert_eq!(Error::InvalidUtf8.close_code(), Some(1007));
    assert_eq!(Error::TooLarge.close_code(), Some(1009));
    assert_eq!(Error::Unmasked.close_code(), Some(1002));
    assert_eq!(Error::Io.close_code(), None);
    assert_eq!(Error::UnsupportedOpcode(0xb).message(), "Unsupported opcode: 0xb");
    assert_eq!(Error::UnsupportedOpcode(0x1f).message(), "Unsupported opcode: 0x1f");
    assert_eq!(Error::InvalidFrame.message(), "Invalid WebSocket frame");
    assert_eq!(close_reply_code(&[]), Ok(1000));
    assert_eq!(close_reply_code(&[3]), Err(Error::InvalidFrame));
    assert_eq!(close_reply_code(&[0x03, 0xe9]), Ok(1001));
}

fn frame(fin: bool, opcode: Opcode, data: &[u8]) -> Frame {
    Frame { fin, opcode, data: data.to_vec() }
}

#[test]
fn fragments_are_reassembled_around_pings() {
    let p = match on_frame(None, frame(false, Opcode::Text, b"Hel"), 100) {
        Step::Keep(Some(p)) => p,
        _ => panic!("expected a partial message"),
    };
    let p = match on_frame(Some(p), frame(true, Opcode::Ping, b"x"), 100) {
        Step::Pong(d, Some(p)) => {
            assert_eq!(d, b"x");
            p
        },
        _ => panic!("expected pong"),
    };
    match on_frame(Some(p), frame(true, Opcode::Continuation, b"lo"), 100) {
        Step::Deliver(Message::Text(t)) => assert_eq!(t, "Hello"),
        _ => panic!("expected the message"),
    }
}

#[test]
fn reassembly_failures() {
    assert!(matches!(on_frame(None, frame(true, Opcode::Continuation, b"x"), 100), Step::Fail(Error::InvalidFrame)));
    let p = Partial { text: false, data: vec![0u8; 60] };
    assert!(matches!(on_frame(Some(p), frame(true, Opcode::Continuation, &[0u8; 5]), 64), Step::Fail(Error::TooLarge)));
    let p = Partial { text: false, data: vec![1] };
    assert!(matches!(on_frame(Some(p), frame(true, Opcode::Binary, b"x"), 64), Step::Fail(Error::InvalidFrame)));
    assert!(matches!(on_frame(None, frame(true, Opcode::Text, &[0xff]), 64), Step::Fail(Error::InvalidUtf8)));
    assert!(matches!(on_frame(None, frame(true, Opcode::Close, &[0x03, 0xe8]), 64), Step::Close(Ok(1000))));
    assert!(matches!(on_frame(None, frame(true, Opcode::Pong, b""), 64), Step::Keep(None)));
}

fn request(raw: &[u8]) -> Request {
    let h = parse_head(raw).unwrap();
    Request {
        id: 1,
        method: h.method,
        path: h.path,
        query: h.query,
        headers: h.headers,
        body: Vec::new(),
        form: tinyweb::fields::FieldMap::new(),
        peer_addr: String::new(),
    }
}

#[test]
fn handshake_decisions() {
    let ok = request(
        b"GET /ws HTTP/1.1\r\nHost: h\r\nUpgrade: websocket\r\nConnection: keep-alive, Upgrade\r\n\
          Sec-WebSocket-Key: dGhlIHNhbXBsZSBub25jZQ==\r\nSec-WebSocket-Version: 13\r\n",
    );
    assert!(ok.upgradable());
    assert_eq!(handshake_status(&ok), Ok(()));
    let old = request(
        b"GET /ws HTTP/1.1\r\nHost: h\r\nUpgrade: websocket\r\nConnection: Upgrade\r\n\
          Sec-WebSocket-Key: dGhlIHNhbXBsZSBub25jZQ==\r\nSec-WebSocket-Version: 8\r\n",
    );
    assert!(!old.upgradable());
    assert_eq!(handshake_status(&old), Err(StatusCode::UpgradeRequired));
    let plain = request(b"GET /ws HTTP/1.1\r\nHost: h\r\n");
    assert_eq!(plain.method, Method::GET);
    assert_eq!(handshake_status(&plain), Err(StatusCode::BadRequest));
}

#[test]
fn upgrade_head_bytes() {
    let h = String::from_utf8(upgrade_head("dGhlIHNhbXBsZSBub25jZQ==", &Date::new(0))).unwrap();
    assert_eq!(
        h,
        "HTTP/1.1 101 Switching Protocols\r\nDate: Thu, 01 Jan 1970 00:00:00 GMT\r\nUpgrade: websocket\r\n\
         Connection: Upgrade\r\nSec-WebSocket-Accept: s3pPLMBiTxaQ9kYGzzhZRbK+xOo=\r\n\r\n"
    );
}

#[test]
fn refusals_advertise_version_13_on_426() {
    let t = String::from_utf8(handshake_refusal(StatusCode::UpgradeRequired).to_bytes(None, true, &Date::new(0))).unwrap();
    assert!(t.starts_with("HTTP/1.1 426 Upgrade Required\r\n"));
    assert!(t.contains("\r\nSec-WebSocket-Version: 13\r\n"));
    let t = String::from_utf8(handshake_refusal(StatusCode::BadRequest).to_bytes(None, true, &Date::new(0))).unwrap();
    assert!(t.starts_with("HTTP/1.1 400 Bad Request\r\n"));
    assert!(!t.contains("Sec-WebSocket-Version"));
}

#[test]
fn close_state_sends_one_close() {
    let mut st = CloseState::new();
    assert!(st.is_open());
    assert_eq!(st.close(1000), Some(1000));
    assert!(!st.is_open());
    assert_eq!(st.close(1001), None);
    let mut st = CloseState::new();
    assert_eq!(st.fail(Error::TooLarge), Some(1009));
    assert_eq!(st.fail(Error::InvalidFrame), None);
    let mut st = CloseState::new();
    assert_eq!(st.fail(Error::Io), None);
    assert!(!st.is_open());
}
