use gliff::cbor::item::F64;
use gliff::client::cursor::has_visible_shape;
use gliff::client::endpoint::{client_caps, pick_endpoint, Endpoint};
use gliff::client::held::Held;
use gliff::client::keymap::{keymap_names, local_keymap};
use gliff::client::session::{decode_result, Action, Decoded, GliffStatusKind, Session, Tail, REPORT_EVERY};
use gliff::client::ui::{
    connect_endpoint, cursor_image, evdev_button, evdev_key, forwards_text, CursorImage, Debounce, FrameSize, Retries,
    MAX_RETRIES,
};
use gliff::frame::incoming::payloads_of;
use gliff::frame::reader::Framed;
use gliff::frame::writer::{write_msg, write_msg_with_payloads};
use gliff::msg::client::ClientMsg;
use gliff::msg::protocol::{ERROR_VERSION, PROTOCOL_VERSION};
use gliff::msg::server::ServerMsg;
use gliff::msg::types::{ChromaMode, Codec, SessionInfo};

#[test]
fn visible_shape_needs_alpha_and_contrast() {
    let transparent = [0u8; 16];
    let black = [0, 0, 0, 255].repeat(4);
    let mut arrow = [0u8; 16];
    arrow[3] = 255;
    assert!(!has_visible_shape(&transparent));
    assert!(!has_visible_shape(&black));
    assert!(has_visible_shape(&arrow));
}

/// Records what the session did; `fail` makes those decode calls (by index)
/// fail.
#[derive(Default)]
struct Recorder {
    configured: Vec<(u32, u32, ChromaMode)>,
    decoded: Vec<(usize, usize)>,
    frames: usize,
    statuses: Vec<String>,
    fail: Vec<usize>,
}

fn stream_config(width: u32, height: u32) -> ServerMsg {
    ServerMsg::StreamConfig {
        codec: Codec::H264,
        chroma: ChromaMode::Dual420,
        pipeline: None,
        width,
        height,
        scale_milli: 2000,
        extradata: Vec::new(),
        aux_extradata: None,
        view_width: width,
        view_height: height,
        fps_cap: 60,
    }
}

fn send_frame(wire: &mut Vec<u8>, frame_id: u64) {
    let (main, aux) = (vec![1u8; 100], vec![2u8; 50]);
    let msg = ServerMsg::VideoFrame {
        frame_id,
        pts_us: 0,
        keyframe: frame_id == 0,
        damage: Vec::new(),
        data_len: main.len() as u32,
        aux_len: aux.len() as u32,
    };
    write_msg_with_payloads(wire, &msg, &[&main, &aux]).unwrap();
}

/// Run a session against a scripted server. Returns what the client sent.
fn scripted(recorder: &mut Recorder) -> Vec<ClientMsg> {
    let mut wire = Vec::new();
    write_msg(
        &mut wire,
        &ServerMsg::HelloAck {
            version: PROTOCOL_VERSION,
            session: SessionInfo { headless: true, output: "HEADLESS-1".into() },
            outputs: Vec::new(),
            features: Vec::new(),
        },
    )
    .unwrap();
    write_msg(&mut wire, &stream_config(640, 360)).unwrap();
    for id in 0..3 {
        send_frame(&mut wire, id);
    }
    write_msg(&mut wire, &stream_config(1280, 720)).unwrap();
    send_frame(&mut wire, 3);

    let mut session = Session::new(0);
    let mut sent = vec![Session::hello("km".into(), client_caps(5120, 2880))];
    let mut rd = Framed::new();
    rd.feed(&wire);
    while let Some(msg) = rd.read_msg::<ServerMsg>().unwrap() {
        let p = payloads_of(&msg, 1 << 20).unwrap();
        let main = rd.read_payload(p.main).unwrap().unwrap();
        let aux = rd.read_payload(p.aux).unwrap().unwrap();
        match session.on_msg(msg, main.clone()) {
            Action::Configure { width, height, scale_milli, chroma } => {
                recorder.configured.push((width, height, chroma));
                session.on_configured();
                recorder.statuses.push(format!("Connected {width} {height} {scale_milli}"));
            }
            Action::Decode { frame_id, configured } => {
                assert!(configured);
                let n = recorder.decoded.len();
                recorder.decoded.push((main.len(), aux.len()));
                let d = if recorder.fail.contains(&n) { Decoded::Failed } else { Decoded::Shown };
                if d == Decoded::Shown {
                    recorder.frames += 1;
                }
                sent.extend(session.on_decoded(frame_id, 1, d, (main.len() + aux.len()) as u64, 5));
            }
            Action::Send(m) => sent.push(m),
            Action::Nothing => {}
            other => panic!("{other:?}"),
        }
    }
    assert_eq!(session.on_closed(), None);
    sent
}

#[test]
fn acks_every_frame_even_when_decode_fails() {
    let mut recorder = Recorder { fail: vec![1], ..Default::default() };
    let sent = scripted(&mut recorder);

    assert!(matches!(&sent[0], ClientMsg::Hello { keymap, .. } if keymap == "km"));
    let acks: Vec<u64> = sent
        .iter()
        .filter_map(|m| match m {
            ClientMsg::FrameAck { frame_id, .. } => Some(*frame_id),
            _ => None,
        })
        .collect();
    assert_eq!(acks, vec![0, 1, 2, 3]);
    let keyframe_requests = sent.iter().filter(|m| matches!(m, ClientMsg::RequestKeyframe)).count();
    assert_eq!(keyframe_requests, 1);

    assert_eq!(recorder.decoded, vec![(100, 50); 4]);
    assert_eq!(recorder.frames, 3);
    assert_eq!(
        recorder.configured,
        vec![(640, 360, ChromaMode::Dual420), (1280, 720, ChromaMode::Dual420)]
    );
    assert!(recorder.statuses[0].starts_with("Connected 640"));
}

#[test]
fn a_close_before_the_handshake_is_an_error() {
    assert!(Session::new(0).on_closed().is_some());
}

#[test]
fn a_server_error_ends_the_session() {
    let mut s = Session::new(0);
    match s.on_msg(ServerMsg::error(ERROR_VERSION, "too new"), Vec::new()) {
        Action::Fail(text) => assert_eq!(text, "server error 1: too new"),
        other => panic!("{other:?}"),
    }
    assert!(matches!(s.on_msg(ServerMsg::Ping { t: 9 }, Vec::new()), Action::Send(ClientMsg::Pong { t: 9 })));
}

#[test]
fn figures_are_reported_every_second() {
    let mut s = Session::new(0);
    s.on_decoded(0, 0, Decoded::Shown, 100, 7);
    s.on_decoded(1, 0, Decoded::Nothing, 50, 3);
    assert_eq!(s.report(REPORT_EVERY - 1), None);
    let stats = s.report(REPORT_EVERY).unwrap();
    assert_eq!((stats.frames, stats.bytes, stats.elapsed), (1, 150, REPORT_EVERY));
    assert_eq!(s.report(REPORT_EVERY + 1), None);
}

#[test]
fn the_last_lines_explain_a_failure() {
    let mut tail = Tail::new();
    assert_eq!(tail.explain("closed"), "closed");
    for line in ["a", "b", "c", "d"] {
        tail.push(line.to_string());
    }
    let text = tail.explain("closed");
    assert!(text.contains("closed") && text.contains('b') && text.contains('d') && !text.contains('a'), "{text}");
}

#[test]
fn a_session_with_no_endpoint_is_refused() {
    assert_eq!(pick_endpoint(None, None, None, Vec::new(), Vec::new()), None);
    assert_eq!(pick_endpoint(Some(String::new()), Some(String::new()), None, Vec::new(), Vec::new()), None);
}

#[test]
fn an_address_goes_before_a_host() {
    let e = pick_endpoint(Some("1.2.3.4:5".into()), Some("me@host".into()), None, Vec::new(), Vec::new());
    assert_eq!(e, Some(Endpoint::Tcp("1.2.3.4:5".into())));
    match pick_endpoint(None, Some("me@host".into()), Some(String::new()), vec!["-x".into()], Vec::new()) {
        Some(Endpoint::Ssh(t)) => {
            assert_eq!((t.host.as_str(), t.server_bin, t.server_args), ("me@host", None, vec!["-x".to_string()]))
        }
        other => panic!("{other:?}"),
    }
    assert_eq!(client_caps(1, 1).max_width, 640);
}

#[test]
fn input_is_tracked() {
    let mut held = Held::default();
    assert_eq!(held.key(30, true), Some(ClientMsg::Key { keycode: 30, pressed: true }));
    assert_eq!(held.key(30, true), None, "repeat is not resent");
    assert!(held.button(0x110, true).is_some());
    let released = held.release_all();
    assert_eq!(released.len(), 2);
    assert!(released.contains(&ClientMsg::Key { keycode: 30, pressed: false }));
    assert!(released.contains(&ClientMsg::PointerButton { button: 0x110, pressed: false }));
    assert_eq!(held.key(30, false), None, "already released");
}

#[test]
fn a_decoders_number_is_read() {
    assert_eq!(decode_result(1), Decoded::Shown);
    assert_eq!(decode_result(0), Decoded::Nothing);
    assert_eq!(decode_result(2), Decoded::Nothing);
    assert_eq!(decode_result(-1), Decoded::Failed);
    assert!(GliffStatusKind::Closed.is_last());
    assert!(!GliffStatusKind::Stats.is_last());
}

#[test]
fn a_cursor_of_the_remote_is_handed_up() {
    let mut s = Session::new(0);
    let shape = ServerMsg::CursorShape { id: 1, width: 2, height: 2, hot_x: 1, hot_y: 0, argb_len: 16 };
    assert!(matches!(
        s.on_msg(shape, vec![0; 16]),
        Action::Cursor { width: 2, height: 2, hot_x: 1, hot_y: 0 }
    ));
    let pos = ServerMsg::CursorPos { x: F64 { bits: 0 }, y: F64 { bits: 0 }, shape_id: 1, visible: true };
    assert!(matches!(s.on_msg(pos, Vec::new()), Action::Nothing));
}

#[test]
fn codes_of_the_toolkit_become_evdev_codes() {
    assert_eq!([1, 2, 3, 8, 9, 77].map(evdev_button), [0x110, 0x112, 0x111, 0x116, 0x115, 0x110]);
    assert_eq!((evdev_key(38), evdev_key(3)), (30, 0));
}

#[test]
fn a_stable_size_is_sent_once() {
    let mut d = Debounce::new();
    assert_eq!(d.poll(800, 600), None);
    assert_eq!(d.poll(800, 600), None);
    assert_eq!(d.poll(800, 600), Some((800, 600)));
    assert_eq!(d.poll(800, 600), None);
    assert_eq!(d.poll(63, 600), None);
    assert_eq!(d.poll(900, 600), None);
    assert_eq!(d.poll(800, 600), None);
    assert_eq!(d.poll(800, 600), None);
    assert_eq!(d.poll(800, 600), None, "the server has this size");
}

#[test]
fn reconnects_end_after_a_few_attempts() {
    let mut r = Retries::new();
    assert_eq!(r.on_lost().text, "Reconnecting… (attempt 1)");
    for _ in 1..MAX_RETRIES {
        assert!(r.on_lost().again);
    }
    let last = r.on_lost();
    assert!(!last.again);
    assert_eq!(last.text, "Disconnected — press Connect to retry");
    r.on_connected();
    assert!(r.on_lost().again);
}

#[test]
fn what_came_from_the_remote_is_not_sent_back() {
    assert!(forwards_text("a", None, 10));
    assert!(!forwards_text("a", Some("a"), 10));
    assert!(forwards_text("bbbbbbbbbb", Some("a"), 10));
    assert!(!forwards_text("bbbbbbbbbbb", Some("a"), 10));
    assert!(!forwards_text("\u{fc}\u{fc}", None, 3));
}

#[test]
fn cursors_without_a_shape_hide_the_pointer() {
    assert_eq!(cursor_image(1, 1, &[1, 2, 3, 255]), CursorImage::Show);
    assert_eq!(cursor_image(1, 1, &[1, 2, 3, 0]), CursorImage::Hide);
    assert_eq!(cursor_image(2, 1, &[1, 2, 3, 255]), CursorImage::Keep);
    assert_eq!(cursor_image(0, 1, &[]), CursorImage::Keep);
}

#[test]
fn the_connect_button_names_the_server() {
    assert_eq!(connect_endpoint(None, String::new(), "s".into(), true), None);
    assert_eq!(
        connect_endpoint(Some("a:1".into()), String::new(), "s".into(), true),
        Some(Endpoint::Tcp("a:1".into()))
    );
    match connect_endpoint(None, "me@h".into(), "srv".into(), true) {
        Some(Endpoint::Ssh(t)) => {
            assert_eq!((t.server_bin.as_deref(), t.server_args), (Some("srv"), vec!["--headless".to_string()]))
        }
        other => panic!("{other:?}"),
    }
}

#[test]
fn a_frame_is_measured_in_logical_pixels() {
    let mut f = FrameSize::new();
    assert_eq!(f.intrinsic(), (0, 0));
    assert!(f.set_frame(2001, 1000, 2));
    assert_eq!(f.intrinsic(), (1000, 500));
    assert!(!f.set_frame(2001, 1000, 2));
    assert!(f.set_frame(2001, 1000, 1));
    assert!(f.set_frame(2000, 1000, 0));
    assert_eq!(f.intrinsic(), (2000, 1000));
}

#[test]
fn unset_options_fall_back() {
    let n = keymap_names(Some("[[EMPTY]]".into()), None, Some("nodeadkeys".into()), Some(String::new()));
    assert_eq!((n.model.as_str(), n.layout.as_str(), n.variant.as_str(), n.options), ("", "us", "nodeadkeys", None));
    let n = keymap_names(None, Some("de".into()), None, Some("caps:escape".into()));
    assert_eq!((n.layout.as_str(), n.options.as_deref()), ("de", Some("caps:escape")));
    assert_eq!(local_keymap(Some("xkb".into())), "xkb");
    assert_eq!(local_keymap(None), "");
}
