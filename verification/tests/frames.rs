use gliff::frame::header::{Error, MAX_FRAME_BODY, MAX_FRAME_PAYLOAD, MAX_PAYLOAD};
use gliff::frame::incoming::{payloads_of, Payloads};
use gliff::frame::reader::Framed;
use gliff::frame::writer::{frame_head, remainder, write_msg, write_msg_with_payloads};
use gliff::msg::client::ClientMsg;
use gliff::msg::protocol::PROTOCOL_VERSION;
use gliff::msg::server::ServerMsg;
use gliff::msg::types::{ChromaMode, ClientCaps, Codec};
use minicbor::Encoder;

const KEY: ClientMsg = ClientMsg::Key { keycode: 30, pressed: true };

/// A frame with this body and payload.
fn raw(body: &[u8], payload: &[u8]) -> Vec<u8> {
    let mut out = Vec::new();
    out.extend_from_slice(&(body.len() as u32).to_le_bytes());
    out.extend_from_slice(&(payload.len() as u32).to_le_bytes());
    out.extend_from_slice(body);
    out.extend_from_slice(payload);
    out
}

/// A message a newer peer might send, which this build has no variant for.
fn future(data_len: u32) -> Vec<u8> {
    let mut e = Encoder::new(Vec::new());
    e.array(2).unwrap().u8(99).unwrap().array(1).unwrap().u32(data_len).unwrap();
    e.into_writer()
}

#[test]
fn round_trips_message_and_payload() {
    let mut wire = Vec::new();
    let msg = ClientMsg::Hello {
        version: PROTOCOL_VERSION,
        keymap: "k".into(),
        caps: ClientCaps {
            codecs: vec![Codec::H264],
            max_width: 1920,
            max_height: 1080,
            chroma: vec![ChromaMode::Dual420],
            features: vec![],
        },
    };
    let payload = vec![7u8; 5000];
    let p2 = vec![9u8; 100];
    write_msg_with_payloads(&mut wire, &msg, &[&payload, &p2]).unwrap();
    let mut rd = Framed::new();
    rd.feed(&wire);
    assert_eq!(rd.read_msg::<ClientMsg>().unwrap(), Some(msg));
    assert_eq!(rd.read_payload(5000).unwrap(), Some(payload));
    assert_eq!(rd.read_payload(100).unwrap(), Some(p2));
    assert_eq!((rd.payload_left(), rd.buffered()), (0, 0));
}

#[test]
fn skips_an_unknown_message_and_its_payload() {
    let mut wire = raw(&future(40_000), &vec![1u8; 40_000]);
    write_msg(&mut wire, &KEY).unwrap();
    let mut rd = Framed::new();
    rd.feed(&wire);
    assert_eq!(rd.read_msg::<ClientMsg>().unwrap(), Some(ClientMsg::Key { keycode: 30, pressed: true }));
}

#[test]
fn discards_payload_the_caller_leaves_unread() {
    let chunk = ClientMsg::ClipboardData { id: 1, offset: 0, data_len: 3, done: true };
    let mut wire = Vec::new();
    write_msg_with_payloads(&mut wire, &chunk, &[b"abc"]).unwrap();
    write_msg(&mut wire, &KEY).unwrap();
    let mut rd = Framed::new();
    rd.feed(&wire);
    assert_eq!(rd.read_msg::<ClientMsg>().unwrap(), Some(chunk));
    assert!(matches!(rd.read_payload(4), Err(Error::PayloadOverrun { asked: 4, left: 3 })));
    assert!(matches!(rd.read_msg::<ClientMsg>().unwrap(), Some(ClientMsg::Key { .. })));
}

#[test]
fn fails_on_an_unknown_value_inside_a_known_message() {
    let mut e = Encoder::new(Vec::new());
    e.array(2).unwrap().u8(5).unwrap().array(4).unwrap();
    e.u8(7).unwrap().f64(1.0).unwrap().null().unwrap().bool(false).unwrap();
    let mut rd = Framed::new();
    rd.feed(&raw(&e.into_writer(), &[]));
    assert!(matches!(rd.read_msg::<ClientMsg>(), Err(Error::Decode(e)) if e.is_unknown_variant()));
}

#[test]
fn frame_layout_is_stable() {
    let mut wire = Vec::new();
    write_msg_with_payloads(&mut wire, &KEY, &[b"ab"]).unwrap();
    let hex: String = wire.iter().map(|b| format!("{b:02x}")).collect();
    assert_eq!(hex, "0600000002000000820282181ef56162");
}

#[test]
fn writer_refuses_frames_the_reader_would_reject() {
    let mut wire = Vec::new();
    let huge = ClientMsg::Keymap { keymap: "x".repeat(MAX_FRAME_BODY) };
    assert!(matches!(write_msg(&mut wire, &huge), Err(Error::BodyTooLarge(_))));
    assert!(wire.is_empty());
    let big = vec![0u8; MAX_PAYLOAD as usize + 1];
    assert!(matches!(
        write_msg_with_payloads(&mut wire, &KEY, &[&big]),
        Err(Error::PayloadTooLarge(_))
    ));
    assert!(wire.is_empty());
}

#[test]
fn reader_refuses_oversized_headers() {
    let mut header = Vec::new();
    header.extend_from_slice(&6u32.to_le_bytes());
    header.extend_from_slice(&(MAX_FRAME_PAYLOAD + 1).to_le_bytes());
    let mut rd = Framed::new();
    rd.feed(&header);
    assert!(matches!(rd.read_msg::<ClientMsg>(), Err(Error::PayloadTooLarge(_))));
    let mut header = Vec::new();
    header.extend_from_slice(&(MAX_FRAME_BODY as u32 + 1).to_le_bytes());
    header.extend_from_slice(&0u32.to_le_bytes());
    let mut rd = Framed::new();
    rd.feed(&header);
    assert!(matches!(rd.read_msg::<ClientMsg>(), Err(Error::BodyTooLarge(_))));
}

/// Read a message while bytes come one at a time, as a read that is
/// cancelled over and over would; counts the reads that found none.
fn read_racing(rd: &mut Framed, bytes: &mut impl Iterator<Item = u8>, cancelled: &mut u32) -> ClientMsg {
    loop {
        if let Some(msg) = rd.read_msg::<ClientMsg>().unwrap() {
            return msg;
        }
        *cancelled += 1;
        rd.feed(&[bytes.next().unwrap()]);
    }
}

/// A read must resume cleanly after being cancelled mid-header, mid-body and
/// mid-skip.
#[test]
fn read_msg_survives_cancellation() {
    let mut wire = raw(&future(300), &[5u8; 300]);
    let chunk = ClientMsg::ClipboardData { id: 1, offset: 0, data_len: 3, done: true };
    write_msg_with_payloads(&mut wire, &chunk, &[b"abc"]).unwrap();
    write_msg(&mut wire, &KEY).unwrap();
    let mut bytes = wire.into_iter();
    let mut rd = Framed::new();
    let mut cancelled = 0;
    assert_eq!(read_racing(&mut rd, &mut bytes, &mut cancelled), chunk);
    let payload = loop {
        if let Some(p) = rd.read_payload(3).unwrap() {
            break p;
        }
        rd.feed(&[bytes.next().unwrap()]);
    };
    assert_eq!(payload, b"abc");
    let key = read_racing(&mut rd, &mut bytes, &mut cancelled);
    assert!(matches!(key, ClientMsg::Key { .. }));
    assert!(cancelled > 100, "only {cancelled} cancellations");
}

#[test]
fn a_broken_body_is_an_error() {
    let mut rd = Framed::new();
    rd.feed(&raw(&[0xff, 0x00], &[]));
    assert!(matches!(rd.read_msg::<ClientMsg>(), Err(Error::Decode(e)) if !e.is_unknown_variant()));
}

#[test]
fn the_head_is_what_goes_before_payloads() {
    let head = frame_head(&KEY, &[b"ab", b"c"]).unwrap();
    assert_eq!(&head[..8], &[6, 0, 0, 0, 3, 0, 0, 0]);
    assert_eq!(&head[8..], &[0x82, 0x02, 0x82, 0x18, 0x1e, 0xf5]);
}

#[test]
fn a_partial_write_leaves_the_rest() {
    let parts: [&[u8]; 3] = [b"abc", b"", b"defg"];
    assert_eq!(remainder(&parts, 0).concat(), b"abcdefg");
    assert_eq!(remainder(&parts, 2).concat(), b"cdefg");
    assert_eq!(remainder(&parts, 4), vec![&b"efg"[..]]);
    assert!(remainder(&parts, 7).is_empty());
}

#[test]
fn payloads_follow_their_messages() {
    let frame = ServerMsg::VideoFrame {
        frame_id: 1,
        pts_us: 0,
        keyframe: false,
        damage: vec![],
        data_len: 100,
        aux_len: 50,
    };
    assert_eq!(payloads_of(&frame, 1000), Some(Payloads { main: 100, aux: 50 }));
    let cursor = ServerMsg::CursorShape { id: 0, width: 1, height: 1, hot_x: 0, hot_y: 0, argb_len: 4 };
    assert_eq!(payloads_of(&cursor, 1000), Some(Payloads { main: 4, aux: 0 }));
    let data = ServerMsg::ClipboardData { id: 0, offset: 0, data_len: 7, done: true };
    assert_eq!(payloads_of(&data, 1000), Some(Payloads { main: 7, aux: 0 }));
    assert_eq!(payloads_of(&data, 6), None);
    assert_eq!(payloads_of(&ServerMsg::Ping { t: 0 }, 0), Some(Payloads { main: 0, aux: 0 }));
}
