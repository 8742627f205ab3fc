use gliff::cbor::item::{DecodeError, F32, F64};
use gliff::cbor::list::{known, none, optional, Maybe};
use gliff::cbor::row::{get_fields, put_fields};
use gliff::cbor::wire::{decode, to_vec};
use gliff::clipboard::msg::{ClipboardFile, ClipboardItem, ClipboardMsg};
use gliff::msg::client::ClientMsg;
use gliff::msg::greeting::Greeting;
use gliff::msg::protocol::{
    features, is_incompatible, version_mismatch, ERROR_NO_CHROMA, ERROR_NO_CODEC, ERROR_VERSION, PROTOCOL_VERSION,
};
use gliff::msg::server::ServerMsg;
use gliff::msg::types::{
    Axis, ChromaMode, ClientCaps, Codec, OutputInfo, Rect, SessionInfo, VideoPipeline,
};
use minicbor::Encoder;

fn single(v: f32) -> F32 {
    F32 { bits: v.to_bits() }
}

fn double(v: f64) -> F64 {
    F64 { bits: v.to_bits() }
}

#[test]
fn round_trips_messages() {
    let msgs = vec![
        ClientMsg::Hello {
            version: PROTOCOL_VERSION,
            keymap: "xkb".into(),
            caps: ClientCaps {
                codecs: vec![Codec::H264],
                max_width: 3840,
                max_height: 2160,
                chroma: vec![ChromaMode::Dual420, ChromaMode::Single420],
                features: vec!["x".into()],
            },
        },
        ClientMsg::Key { keycode: 30, pressed: true },
        ClientMsg::PointerAxis { axis: Axis::Vertical, value: double(1.5), discrete: Some(1), stop: false },
        ClientMsg::FrameAck { frame_id: 42, decoded_at_ms: 1000 },
        ClientMsg::Keymap { keymap: "xkb".into() },
    ];
    for m in msgs {
        let bytes = to_vec(&m);
        let back: ClientMsg = decode(&bytes).unwrap();
        assert_eq!(m, back);
    }
    let s = ServerMsg::VideoFrame {
        frame_id: 1,
        pts_us: 2,
        keyframe: true,
        damage: vec![Rect { x: 0, y: 0, width: 10, height: 10 }],
        data_len: 100,
        aux_len: 50,
    };
    let bytes = to_vec(&s);
    assert_eq!(decode::<ServerMsg>(&bytes).unwrap(), s);
}

#[test]
fn clipboard_messages_bridge_both_directions() {
    let msgs = vec![
        ClipboardMsg::Offer {
            serial: 4,
            mime_types: vec!["image/png".into()],
            files: vec![ClipboardFile { path: "a/b.txt".into(), size: 3, dir: false }],
        },
        ClipboardMsg::Request { id: 7, serial: 4, item: ClipboardItem::File(0) },
        ClipboardMsg::Data { id: 7, offset: 10, data_len: 3, done: true },
        ClipboardMsg::Ack { id: 7, received: 13 },
        ClipboardMsg::Abort { id: 7 },
    ];
    for m in msgs {
        let c = ClientMsg::from(m.clone());
        let bytes = to_vec(&c);
        let back: ClientMsg = decode(&bytes).unwrap();
        assert_eq!(back.into_clipboard(), Ok(m.clone()));
        let s = ServerMsg::from(m.clone());
        let bytes = to_vec(&s);
        let back: ServerMsg = decode(&bytes).unwrap();
        assert_eq!(back.into_clipboard(), Ok(m));
    }
    assert_eq!(ClientMsg::Bye.into_clipboard(), Err(ClientMsg::Bye));
}

fn hex(bytes: &[u8]) -> String {
    bytes.iter().map(|b| format!("{b:02x}")).collect()
}

/// These bytes are the protocol: a change here breaks peers from other
/// builds.
#[test]
fn encodings_are_stable() {
    let client = [
        (
            ClientMsg::Hello {
                version: 1,
                keymap: "k".into(),
                caps: ClientCaps {
                    codecs: vec![Codec::H264],
                    max_width: 3840,
                    max_height: 2160,
                    chroma: vec![ChromaMode::Dual420, ChromaMode::Single420],
                    features: vec!["f".into()],
                },
            },
            "82008301616b858101190f00190870820102816166",
        ),
        (ClientMsg::Key { keycode: 30, pressed: true }, "820282181ef5"),
        (
            ClientMsg::PointerMotion { x: double(12.5), y: double(7.25) },
            "820382fb4029000000000000fb401d000000000000",
        ),
        (ClientMsg::FrameAck { frame_id: 42, decoded_at_ms: 1000 }, "820682182a1903e8"),
        (ClientMsg::RequestKeyframe, "820780"),
    ];
    for (msg, bytes) in client {
        assert_eq!(hex(&to_vec(&msg)), bytes, "{msg:?}");
    }
    let server = [
        (
            ServerMsg::HelloAck {
                version: 1,
                session: SessionInfo { headless: true, output: "o".into() },
                outputs: vec![OutputInfo { name: "o".into(), width: 1920, height: 1080, scale_milli: 1000 }],
                features: vec![],
            },
            "8200840182f5616f8184616f1907801904381903e880",
        ),
        (stream_config(Some(VideoPipeline::Gpu)), "82018b0101001907801904381903e840f6190780190438183c"),
        (
            ServerMsg::VideoFrame {
                frame_id: 1,
                pts_us: 2,
                keyframe: true,
                damage: vec![Rect { x: 0, y: 0, width: 10, height: 10 }],
                data_len: 100,
                aux_len: 50,
            },
            "8202860102f5818400000a0a18641832",
        ),
        (ServerMsg::error(ERROR_VERSION, "m"), "82098301616d01"),
    ];
    for (msg, bytes) in server {
        assert_eq!(hex(&to_vec(&msg)), bytes, "{msg:?}");
    }
}

fn stream_config(pipeline: Option<VideoPipeline>) -> ServerMsg {
    ServerMsg::StreamConfig {
        codec: Codec::H264,
        chroma: ChromaMode::Dual420,
        pipeline,
        width: 1920,
        height: 1080,
        scale_milli: 1000,
        extradata: vec![],
        aux_extradata: None,
        view_width: 1920,
        view_height: 1080,
        fps_cap: 60,
    }
}

/// A newer client's `Hello`: an extra field in the message and in its caps,
/// and a codec and chroma mode this build does not know.
fn newer_hello() -> Vec<u8> {
    let mut e = Encoder::new(Vec::new());
    e.array(2).unwrap().u8(0).unwrap().array(4).unwrap();
    e.u16(1).unwrap().str("k").unwrap();
    e.array(6).unwrap();
    e.array(2).unwrap().u8(9).unwrap().u8(1).unwrap();
    e.u32(3840).unwrap().u32(2160).unwrap();
    e.array(2).unwrap().u8(1).unwrap().u8(9).unwrap();
    e.array(1).unwrap().str("future").unwrap();
    e.u32(120).unwrap();
    e.str("us").unwrap();
    e.into_writer()
}

#[test]
fn hello_from_a_newer_client_decodes() {
    assert_eq!(
        decode::<ClientMsg>(&newer_hello()).unwrap(),
        ClientMsg::Hello {
            version: 1,
            keymap: "k".into(),
            caps: ClientCaps {
                codecs: vec![Codec::H264],
                max_width: 3840,
                max_height: 2160,
                chroma: vec![ChromaMode::Dual420],
                features: vec!["future".into()],
            },
        }
    );
}

#[test]
fn greeting_reads_the_version_of_any_hello() {
    let hello = ClientMsg::Hello {
        version: PROTOCOL_VERSION,
        keymap: "k".into(),
        caps: ClientCaps {
            codecs: vec![Codec::H264],
            max_width: 1,
            max_height: 1,
            chroma: vec![ChromaMode::Dual420],
            features: vec![],
        },
    };
    let ClientMsg::Hello { keymap, caps, .. } = hello.clone() else { unreachable!() };
    assert_eq!(Greeting::decode(&to_vec(&hello)).unwrap(), Greeting::Hello { keymap, caps });
    // A future protocol version whose `Hello` has a different shape.
    let mut e = Encoder::new(Vec::new());
    e.array(2).unwrap().u8(0).unwrap().array(2).unwrap();
    e.u16(PROTOCOL_VERSION + 1).unwrap().u64(7).unwrap();
    assert_eq!(
        Greeting::decode(&e.into_writer()).unwrap(),
        Greeting::OtherVersion(PROTOCOL_VERSION + 1)
    );
}

/// A newer server's `StreamConfig`: a pipeline this build does not know, and
/// an extra field after the ones it does.
#[test]
fn stream_config_from_a_newer_server_decodes() {
    let mut e = Encoder::new(Vec::new());
    e.array(2).unwrap().u8(1).unwrap().array(12).unwrap();
    e.u8(1).unwrap().u8(1).unwrap().u8(9).unwrap();
    e.u32(1920).unwrap().u32(1080).unwrap().u32(1000).unwrap();
    e.bytes(&[]).unwrap().null().unwrap();
    e.u32(1920).unwrap().u32(1080).unwrap().u32(60).unwrap();
    e.bool(true).unwrap();
    assert_eq!(decode::<ServerMsg>(&e.into_writer()).unwrap(), stream_config(None));
}

#[test]
fn known_reads_indefinite_lists_and_keeps_other_errors() {
    let (list, end) = known::<Codec>(&[0x9f, 0x01, 0x09, 0x02, 0xff], 0).unwrap();
    assert_eq!(list, vec![Codec::H264, Codec::H265]);
    assert_eq!(end, 5);
    assert!(known::<Codec>(&[0x81, 0x61, 0x78], 0).is_err());
}

/// The shape every new field takes: an optional enum appended last.
type Grown = (u32, (Maybe<VideoPipeline>, ()));

type Original = (u32, ());

fn grown(bytes: &[u8]) -> (u32, Option<VideoPipeline>) {
    let ((width, (pipeline, ())), _) = get_fields::<Grown>(bytes, 0).unwrap();
    (width, pipeline.value)
}

#[test]
fn an_appended_optional_enum_is_invisible_when_absent() {
    let mut bytes = Vec::new();
    put_fields(&(7u32, (None::<VideoPipeline>, ())), &mut bytes);
    let mut original = Vec::new();
    put_fields(&(7u32, ()), &mut original);
    assert_eq!(bytes, original);
    assert_eq!(grown(&bytes), (7, None));
    let with_null = [0x82, 0x07, 0xf6];
    assert_eq!(grown(&with_null), (7, None));
    let mut bytes = Vec::new();
    put_fields(&(7u32, (Some(VideoPipeline::Cpu), ())), &mut bytes);
    assert_eq!(grown(&bytes), (7, Some(VideoPipeline::Cpu)));
    let ((width, ()), _) = get_fields::<Original>(&bytes, 0).unwrap();
    assert_eq!(width, 7);
}

#[test]
fn every_message_is_read_back() {
    let client = vec![
        ClientMsg::Resize { width: 800, height: 600, scale: single(1.25) },
        ClientMsg::PointerMotion { x: double(-1.0), y: double(1e300) },
        ClientMsg::PointerButton { button: 0x110, pressed: false },
        ClientMsg::PointerAxis { axis: Axis::Horizontal, value: double(0.1), discrete: None, stop: true },
        ClientMsg::RequestKeyframe,
        ClientMsg::ClipboardRequest { id: 1, serial: 2, item: ClipboardItem::Mime("text/plain".into()) },
        ClientMsg::Ping { t: u64::MAX },
        ClientMsg::Bye,
        ClientMsg::Pong { t: 5 },
    ];
    for m in client {
        assert_eq!(decode::<ClientMsg>(&to_vec(&m)).unwrap(), m);
    }
    let server = vec![
        ServerMsg::CursorShape { id: 1, width: 24, height: 24, hot_x: -3, hot_y: 4, argb_len: 2304 },
        ServerMsg::CursorPos { x: double(1.0), y: double(2.0), shape_id: 7, visible: true },
        ServerMsg::ClipboardRequest { id: 1, serial: 9, item: ClipboardItem::File(3) },
        ServerMsg::Pong { t: 1, server_now_ms: 2 },
        ServerMsg::error(ERROR_NO_CODEC, "no codec"),
        ServerMsg::Ping { t: 77 },
        stream_config(Some(VideoPipeline::Cpu)),
    ];
    for m in server {
        assert_eq!(decode::<ServerMsg>(&to_vec(&m)).unwrap(), m);
    }
}

#[test]
fn single_precision_widens_where_double_is_read() {
    // 0xfa carries a single-precision number; a double field takes it.
    let bytes = [0x82, 0x03, 0x82, 0xfa, 0x41, 0x48, 0, 0, 0xfa, 0x40, 0xe8, 0, 0];
    assert_eq!(
        decode::<ClientMsg>(&bytes).unwrap(),
        ClientMsg::PointerMotion { x: double(12.5), y: double(7.25) }
    );
}

#[test]
fn an_unknown_message_is_told_from_a_broken_one() {
    let unknown = [0x82, 0x18, 0x63, 0x80];
    let e = decode::<ClientMsg>(&unknown).unwrap_err();
    assert!(e.is_unknown_variant());
    assert!(matches!(e, DecodeError::UnknownVariant { .. }));
    assert_eq!(decode::<ClientMsg>(&[0x82, 0x02]), Err(DecodeError::Malformed));
    assert_eq!(decode::<ClientMsg>(&[]), Err(DecodeError::Malformed));
    // A missing field that is not optional.
    assert_eq!(decode::<ClientMsg>(&[0x82, 0x02, 0x81, 0x01]), Err(DecodeError::Malformed));
}

#[test]
fn texts_are_not_bytes() {
    let m = ClientMsg::Keymap { keymap: "ü".into() };
    assert_eq!(hex(&to_vec(&m)), "820f8162c3bc");
    // A byte string where a text is due, and a text that is not UTF-8.
    assert!(decode::<ClientMsg>(&[0x82, 0x0f, 0x81, 0x42, 0xc3, 0xbc]).is_err());
    assert!(decode::<ClientMsg>(&[0x82, 0x0f, 0x81, 0x62, 0xc3, 0xc3]).is_err());
}

#[test]
fn optional_values_skip_what_is_not_known() {
    assert_eq!(optional::<VideoPipeline>(&[0x01], 0), Ok((Some(VideoPipeline::Cpu), 1)));
    assert_eq!(optional::<VideoPipeline>(&[0xf6], 0), Ok((None, 1)));
    assert_eq!(optional::<VideoPipeline>(&[0x18, 0x40, 0x00], 0), Ok((None, 2)));
    assert!(optional::<VideoPipeline>(&[0x61, 0x78], 0).is_err());
    assert_eq!(none::<u32>(), Some(None));
}

#[test]
fn errors_tell_who_has_to_be_updated() {
    assert!(is_incompatible(ERROR_VERSION));
    assert!(is_incompatible(ERROR_NO_CHROMA));
    assert!(is_incompatible(ERROR_NO_CODEC));
    assert!(!is_incompatible(0));
    assert!(!is_incompatible(256));
    assert_ne!(version_mismatch(1, 2), version_mismatch(2, 1));
    assert!(features().is_empty());
    assert_eq!(VideoPipeline::Gpu.label(), "gpu");
    assert_eq!(VideoPipeline::Cpu.label(), "cpu");
}
