use xx_url::ws::errors::{ControlFrameFault, WebSocketError};
use xx_url::ws::mask::mask;
use xx_url::ws::session::{
    BorrowedFrame, CloseState, Direction, Frame, WebSocket, WebSocketOptions, NO_CLOSE,
    NO_STATUS_CODE,
};
use xx_url::ws::wire::{decode_frame, encode_frame, encode_len, FrameHeader, Op};

fn header(fin: bool, op: Op, mask: Option<u32>, len: u64) -> FrameHeader {
    FrameHeader { fin, op, mask, len }
}

fn client() -> WebSocket {
    WebSocket::from_options(&WebSocketOptions::new(), true)
}

fn server() -> WebSocket {
    WebSocket::server(&WebSocketOptions::new())
}

#[test]
fn op_control_kinds() {
    assert!(Op::Ping.is_control());
    assert!(Op::Pong.is_control());
    assert!(Op::Close.is_control());
    assert!(!Op::Text.is_control());
    assert!(!Op::Binary.is_control());
    assert!(!Op::Continuation.is_control());
    assert_eq!(Op::from_bits(0x1), Op::Text);
    assert_eq!(Op::from_bits(0x3), Op::Invalid);
    assert_eq!(Op::Pong.to_bits(), 0xa);
}

#[test]
fn mask_twice_restores_payload() {
    let original = b"hello, masked world".to_vec();
    let mut data = original.clone();
    mask(&mut data, 0x37fa213d);
    assert_ne!(data, original);
    assert_eq!(data[0], b'h' ^ 0x37);
    assert_eq!(data[1], b'e' ^ 0xfa);
    assert_eq!(data[4], b'o' ^ 0x37);
    mask(&mut data, 0x37fa213d);
    assert_eq!(data, original);
}

#[test]
fn mask_zero_key_keeps_payload() {
    let mut data = b"hi".to_vec();
    mask(&mut data, 0);
    assert_eq!(data, b"hi".to_vec());
}

#[test]
fn length_codes() {
    let mut out = Vec::new();
    assert_eq!(encode_len(125, &mut out), 125);
    assert!(out.is_empty());
    assert_eq!(encode_len(126, &mut out), 126);
    assert_eq!(out, vec![0, 126]);
    out.clear();
    assert_eq!(encode_len(65535, &mut out), 126);
    assert_eq!(out, vec![0xff, 0xff]);
    out.clear();
    assert_eq!(encode_len(65536, &mut out), 127);
    assert_eq!(out, vec![0, 0, 0, 0, 0, 1, 0, 0]);
}

#[test]
fn client_text_frame_bytes() {
    let h = header(true, Op::Text, Some(0), 2);
    let bytes = encode_frame(&h, b"hi");
    assert_eq!(bytes, vec![0x81, 0x82, 0, 0, 0, 0, b'h', b'i']);
}

#[test]
fn frame_round_trip_lengths() {
    for &len in &[0usize, 1, 125, 126, 127, 65535, 65536, 70000] {
        let payload: Vec<u8> = (0..len).map(|i| (i % 251) as u8).collect();
        for &m in &[None, Some(0u32), Some(0xdeadbeef)] {
            let h = header(len % 2 == 0, Op::Binary, m, len as u64);
            let mut bytes = encode_frame(&h, &payload);
            let n = bytes.len();
            bytes.extend_from_slice(b"tail");
            let (h2, p2, used) = decode_frame(&bytes).unwrap();
            assert_eq!(h2, h);
            assert_eq!(p2, payload);
            assert_eq!(used, n);
        }
    }
}

#[test]
fn decode_needs_whole_frame() {
    let h = header(true, Op::Text, None, 5);
    let bytes = encode_frame(&h, b"hello");
    assert!(decode_frame(&bytes[..1]).is_none());
    assert!(decode_frame(&bytes[..6]).is_none());
    assert!(decode_frame(&bytes).is_some());
}

#[test]
fn server_reads_client_echo_frame() {
    let mut ws = server();
    let bytes = vec![0x81, 0x82, 0, 0, 0, 0, b'h', b'i'];
    let (h, _, _) = decode_frame(&bytes).unwrap();
    assert_eq!(h, header(true, Op::Text, Some(0), 2));
    let (h, n) = FrameHeader::read(&bytes).unwrap();
    assert_eq!(n, 6);
    let got = ws.receive_frame(&h, &bytes[6..]).unwrap();
    assert_eq!(got, Some(Frame::Text("hi".to_string())));
}

#[test]
fn masked_text_is_unmasked_on_receipt() {
    let mut ws = server();
    let mut payload = b"hello".to_vec();
    mask(&mut payload, 0x01020304);
    let h = header(true, Op::Text, Some(0x01020304), 5);
    let got = ws.receive_frame(&h, &payload).unwrap();
    assert_eq!(got, Some(Frame::Text("hello".to_string())));
}

#[test]
fn fragments_assemble_into_one_message() {
    let mut ws = client();
    let first = ws.receive_frame(&header(false, Op::Binary, None, 3), b"abc").unwrap();
    assert_eq!(first, None);
    assert!(ws.expect_continuation);
    let ping = ws.receive_frame(&header(true, Op::Ping, None, 1), b"p").unwrap();
    assert_eq!(ping, Some(Frame::Ping(b"p".to_vec())));
    let last = ws.receive_frame(&header(true, Op::Continuation, None, 2), b"de").unwrap();
    assert_eq!(last, Some(Frame::Binary(b"abcde".to_vec())));
    assert!(!ws.expect_continuation);
}

#[test]
fn invalid_utf8_text_is_refused() {
    let mut ws = client();
    let r = ws.receive_frame(&header(true, Op::Text, None, 2), &[0xc3, 0x28]);
    assert_eq!(r, Err(WebSocketError::InvalidUtf8));
}

#[test]
fn receive_errors() {
    let mut ws = client();
    assert_eq!(ws.receive_frame(&header(true, Op::Invalid, None, 0), b""), Err(WebSocketError::InvalidOpcode));
    assert_eq!(
        ws.receive_frame(&header(false, Op::Ping, None, 0), b""),
        Err(WebSocketError::InvalidControlFrame(ControlFrameFault::FinNotSet))
    );
    assert_eq!(ws.receive_frame(&header(true, Op::Continuation, None, 0), b""), Err(WebSocketError::UnexpectedContinuation));
    assert_eq!(ws.receive_frame(&header(true, Op::Text, Some(1), 0), b""), Err(WebSocketError::ServerMasked));
    ws.receive_frame(&header(false, Op::Text, None, 1), b"a").unwrap();
    assert_eq!(ws.receive_frame(&header(true, Op::Text, None, 1), b"b"), Err(WebSocketError::ExpectedContinuation));
}

#[test]
fn control_frame_length_boundary_on_receive() {
    let mut ws = client();
    let p125 = vec![7u8; 125];
    assert_eq!(ws.receive_frame(&header(true, Op::Ping, None, 125), &p125), Ok(Some(Frame::Ping(p125.clone()))));
    let p126 = vec![7u8; 126];
    assert_eq!(
        ws.receive_frame(&header(true, Op::Ping, None, 126), &p126),
        Err(WebSocketError::InvalidControlFrame(ControlFrameFault::TooLong))
    );
}

#[test]
fn control_frame_length_boundary_on_send() {
    let mut ws = server();
    let p125 = vec![1u8; 125];
    assert!(ws.send_frame(&Frame::ping(&p125), 0).is_ok());
    let p126 = vec![1u8; 126];
    assert_eq!(ws.send_frame(&Frame::ping(&p126), 0), Err(WebSocketError::UserInvalidControlFrame));
    let p124 = vec![1u8; 124];
    assert_eq!(ws.send_frame(&Frame::close(1000, &p124), 0), Err(WebSocketError::UserInvalidControlFrame));
}

#[test]
fn message_too_long() {
    let mut opts = WebSocketOptions::new();
    opts.set_max_message_length(4);
    let mut ws = WebSocket::from_options(&opts, true);
    assert_eq!(ws.receive_frame(&header(true, Op::Binary, None, 5), b"12345"), Err(WebSocketError::MessageTooLong));
    ws.receive_frame(&header(false, Op::Binary, None, 3), b"123").unwrap();
    assert_eq!(ws.receive_frame(&header(true, Op::Continuation, None, 2), b"45"), Err(WebSocketError::MessageTooLong));
    assert_eq!(
        ws.receive_frame(&header(true, Op::Continuation, None, 1), b"4"),
        Ok(Some(Frame::Binary(b"1234".to_vec())))
    );
}

#[test]
fn send_fragments_and_type_mismatch() {
    let mut ws = server();
    let a = ws.send_frame(&Frame::text_partial("ab"), 0).unwrap();
    assert_eq!(a, vec![0x01, 0x02, b'a', b'b']);
    assert_eq!(ws.send_frame(&Frame::binary(b"x"), 0), Err(WebSocketError::DataTypeMismatch));
    let b = ws.send_frame(&Frame::text("c"), 0).unwrap();
    assert_eq!(b, vec![0x80, 0x01, b'c']);
    assert_eq!(ws.last_sent_message_op, None);
}

#[test]
fn client_masks_with_the_given_key() {
    let mut ws = client();
    let bytes = ws.send_frame(&Frame::binary(b"ab"), 0x01020304).unwrap();
    assert_eq!(bytes, vec![0x82, 0x82, 1, 2, 3, 4, b'a' ^ 1, b'b' ^ 2]);
}

#[test]
fn close_handshake_closes_both_ways() {
    let mut c = client();
    let mut s = server();
    let close = c.send_frame(&Frame::close(1000, b""), 0).unwrap();
    assert_eq!(close, vec![0x88, 0x82, 0, 0, 0, 0, 0x03, 0xe8]);
    assert_eq!(c.close_state, CloseState::Write);
    assert!(c.can_read());
    assert!(!c.can_write());
    let (h, n) = FrameHeader::read(&close).unwrap();
    let got = s.receive_frame(&h, &close[n..]).unwrap();
    assert_eq!(got, Some(Frame::Close(1000, Vec::new())));
    assert_eq!(s.close_state, CloseState::Read);
    let reply = s.send_frame(&Frame::close(1000, b""), 0).unwrap();
    assert!(s.closing());
    let (h, n) = FrameHeader::read(&reply).unwrap();
    let got = c.receive_frame(&h, &reply[n..]).unwrap();
    assert_eq!(got, Some(Frame::Close(1000, Vec::new())));
    assert_eq!(c.close_state, CloseState::Both);
    assert!(c.closing());
    assert!(!c.can_read());
    assert!(!c.can_write());
    assert_eq!(c.send_frame(&Frame::ping(b""), 0), Err(WebSocketError::Shutdown));
    assert_eq!(c.receive_frame(&header(true, Op::Ping, None, 0), b""), Err(WebSocketError::Shutdown));
}

#[test]
fn close_without_code_and_eof() {
    let mut ws = client();
    let got = ws.receive_frame(&header(true, Op::Close, None, 0), b"").unwrap();
    assert_eq!(got, Some(Frame::Close(NO_STATUS_CODE, Vec::new())));
    let mut other = client();
    assert_eq!(other.receive_eof(), Frame::Close(NO_CLOSE, Vec::new()));
    assert!(!other.can_read());
}

#[test]
fn close_state_order() {
    let all = [CloseState::Open, CloseState::Read, CloseState::Write, CloseState::Both];
    let rank = |s: CloseState| match s {
        CloseState::Open => 0,
        CloseState::Read | CloseState::Write => 1,
        CloseState::Both => 2,
    };
    for s in all {
        for d in [Direction::Read, Direction::Write] {
            let t = s.shutdown(d);
            assert!(rank(t) >= rank(s));
        }
    }
    assert_eq!(CloseState::Read.shutdown(Direction::Write), CloseState::Both);
    assert!(!CloseState::Both.can_read() && !CloseState::Both.can_write());
}

#[test]
fn borrowed_frame_fields() {
    let f: BorrowedFrame = Frame::close(1001, b"bye");
    assert_eq!(f.op, Op::Close);
    assert_eq!(f.close_code, 1001);
    assert!(f.fin);
    assert_eq!(f.payload, b"bye");
}

#[test]
fn options_defaults_and_setters() {
    let mut o = WebSocketOptions::new();
    assert_eq!(o.handshake_timeout_ms, 60_000);
    assert_eq!(o.close_timeout_ms, 30_000);
    assert_eq!(o.max_message_length, 128 * 1024 * 1024);
    o.set_handshake_timeout(5).set_close_timeout(6).set_max_message_length(7);
    assert_eq!((o.handshake_timeout_ms, o.close_timeout_ms, o.max_message_length), (5, 6, 7));
    assert_eq!(WebSocketError::MessageTooLong.message(), "Maximum message length exceeded");
}

#[test]
fn unsendable_opcode_is_refused() {
    let mut ws = server();
    let f = BorrowedFrame { op: Op::Continuation, close_code: 0, payload: b"x", fin: true };
    assert_eq!(ws.send_frame(&f, 0), Err(WebSocketError::InvalidOpcode));
    assert_eq!(ws.close_state, CloseState::Open);
}
