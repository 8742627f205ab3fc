use gliff::cbor::item::{F32, F64};
use gliff::clipboard::msg::{ClipboardFile, ClipboardItem, ClipboardMsg};
use gliff::clipboard::progress::{Progress, State};
use gliff::clipboard::spool::LocalFiles;
use gliff::msg::client::ClientMsg;
use gliff::msg::greeting::Greeting;
use gliff::msg::protocol::{ERROR_NO_CHROMA, ERROR_VERSION, PROTOCOL_VERSION};
use gliff::msg::server::ServerMsg;
use gliff::msg::types::{Axis, ChromaMode, ClientCaps, Codec, VideoPipeline};
use gliff::rate::control::{Bounds, RateController};
use gliff::server::bridge::{uri_list_usable, Answer, Bridge, Paste, URI_LIST_MAX};
use gliff::server::input::{client_action, clipboard_payload, input_cmd, ClientAction, InputCmd};
use gliff::server::notify::{render, Notes};
use gliff::server::queue::{Packet, Queue};
use gliff::server::session::{byte_cap_has_room, worth_rebuilding, Encode, Plan, Resize, Session, MAX_REFINES};
use gliff::server::setup::{
    appeared, check_chroma, handshake, headless_size, main_monitor, offers_chroma, pick_chroma, pick_output, pick_tier,
    scale_at, streams, Handshake, Mode, ModeWait, Monitor, ScaleWait, Size, MODE_POLLS,
};
use gliff::video::VideoMode;

const MS: u64 = 1_000_000;

fn video(id: u64) -> Packet {
    Packet {
        message: ServerMsg::VideoFrame {
            frame_id: id,
            pts_us: 0,
            keyframe: id == 1,
            damage: Vec::new(),
            data_len: 64,
            aux_len: 0,
        },
        payloads: vec![vec![42; 64]],
    }
}

fn config(width: u32) -> Packet {
    Packet {
        message: ServerMsg::StreamConfig {
            codec: Codec::H264,
            chroma: ChromaMode::Single420,
            pipeline: None,
            width,
            height: 480,
            scale_milli: 1000,
            extradata: Vec::new(),
            aux_extradata: None,
            view_width: width,
            view_height: 480,
            fps_cap: 60,
        },
        payloads: Vec::new(),
    }
}

fn bare(message: ServerMsg) -> Packet {
    Packet { message, payloads: Vec::new() }
}

fn push_updates(queue: &mut Queue) {
    for id in 1..1000 {
        queue.push(config(800 + id));
        queue.push(Packet {
            message: ServerMsg::CursorShape { id, width: 1, height: 1, hot_x: 0, hot_y: 0, argb_len: 4 },
            payloads: vec![vec![0; 4]],
        });
        queue.push(bare(ServerMsg::CursorPos { x: F64 { bits: 0 }, y: F64 { bits: 0 }, shape_id: id, visible: true }));
        queue.push(Packet {
            message: ServerMsg::ClipboardData { id: 1, offset: 0, data_len: 1, done: true },
            payloads: vec![vec![0]],
        });
        queue.push(bare(ServerMsg::Pong { t: id as u64, server_now_ms: 0 }));
        assert_eq!(queue.packets.len(), 7);
    }
}

#[test]
fn updates_stay_bounded_and_preserve_video_configuration() {
    let mut queue = Queue::default();
    queue.push(config(640));
    queue.push(video(1));
    push_updates(&mut queue);
    assert!(matches!(queue.packets[0].message, ServerMsg::StreamConfig { width: 640, .. }));
    assert!(matches!(queue.packets[1].message, ServerMsg::VideoFrame { frame_id: 1, .. }));
    assert!(matches!(queue.packets[2].message, ServerMsg::StreamConfig { width: 1799, .. }));
    assert!(!queue.video_ready());
}

#[test]
fn coalescing_stays_bounded_and_keeps_video_config_order() {
    let mut queue = Queue::default();
    queue.push(config(640));
    queue.push(video(1));
    push_updates(&mut queue);
    assert!(!queue.video_ready());
    let mut order = Vec::new();
    while let Some(p) = queue.pop() {
        order.push(p.message);
    }
    assert_eq!(order.len(), 7);
    assert!(matches!(order[0], ServerMsg::StreamConfig { width: 640, .. }));
    assert!(matches!(order[1], ServerMsg::VideoFrame { frame_id: 1, .. }));
    assert!(matches!(order[2], ServerMsg::StreamConfig { width: 1799, .. }));
    assert!(queue.video_ready());
}

fn running(total: Option<u64>) -> Progress {
    Progress { label: "photos".into(), done: 25, total, rate: None, state: State::Running }
}

#[test]
fn a_running_paste_has_a_bar_and_a_cancel_action() {
    let n = render(&running(Some(100)));
    assert_eq!(n.summary, "Pasting photos");
    assert_eq!(n.actions, vec!["cancel", "Cancel"]);
    assert_eq!(n.value, Some(25));
    assert_eq!(n.timeout, 0);
    let unknown = render(&running(None));
    assert_eq!(unknown.value, None);
}

#[test]
fn a_dismissed_job_is_only_shown_again_when_it_fails() {
    let mut notes = Notes::default();
    assert_eq!(notes.slot_for(7, &running(None)), Some(0));
    notes.shown(7, 42, false);
    assert_eq!(notes.slot_for(7, &running(None)), Some(42));
    assert_eq!(notes.job_of(42), Some(7));
    notes.dismissed(42);
    assert_eq!(notes.slot_for(7, &running(None)), None);
    let mut failed = running(None);
    failed.state = State::Failed("gone".into());
    assert_eq!(notes.slot_for(7, &failed), Some(0));
}

#[test]
fn the_end_of_a_paste_is_told() {
    let done = render(&Progress { state: State::Done, ..running(None) });
    assert_eq!((done.summary.as_str(), done.timeout), ("Pasted photos", -1));
    let cancelled = render(&Progress { state: State::Cancelled, ..running(None) });
    assert_eq!(cancelled.summary, "Paste of photos cancelled");
    let failed = render(&Progress { state: State::Failed("gone".into()), ..running(None) });
    assert!(failed.critical);
    assert!(failed.body.contains("gone"));
}

fn monitor(name: &str, x: i32, focused: bool, disabled: bool) -> Monitor {
    Monitor { name: name.to_string(), width: 1920, height: 1080, x, y: 0, scale: F32 { bits: 1.0f32.to_bits() }, focused, disabled }
}

#[test]
fn the_main_monitor_is_focused_or_leftmost() {
    let mons = [monitor("B", 1920, false, false), monitor("A", 0, false, false), monitor("C", -10, false, true)];
    assert_eq!(main_monitor(&mons), Some(1));
    let mut focused = mons.clone();
    focused[0].focused = true;
    assert_eq!(main_monitor(&focused), Some(0));
    assert_eq!(pick_output(&mons, "auto"), Some(1));
    assert_eq!(pick_output(&mons, "B"), Some(0));
    assert_eq!(pick_output(&mons, "X"), None);
    assert_eq!(main_monitor(&mons[2..]), None);
    assert_eq!(appeared(&["B".to_string(), "C".to_string()], &mons), Some(1));
}

fn caps(chroma: Vec<ChromaMode>) -> ClientCaps {
    ClientCaps { codecs: vec![Codec::H264], max_width: 1280, max_height: 720, chroma, features: vec![] }
}

#[test]
fn a_peer_of_another_version_is_refused() {
    match handshake(Greeting::OtherVersion(PROTOCOL_VERSION + 1)) {
        Handshake::Refuse(ServerMsg::Error { code, version, .. }) => {
            assert_eq!((code, version), (ERROR_VERSION, Some(PROTOCOL_VERSION)))
        }
        other => panic!("{other:?}"),
    }
    let c = caps(vec![ChromaMode::Dual420]);
    assert!(matches!(
        handshake(Greeting::Hello { keymap: "k".into(), caps: c }),
        Handshake::Accept { keymap, .. } if keymap == "k"
    ));
}

#[test]
fn the_chroma_is_one_the_client_decodes() {
    let both = caps(vec![ChromaMode::Dual420, ChromaMode::Single420]);
    let single = caps(vec![ChromaMode::Single420]);
    assert!(offers_chroma(&both, ChromaMode::Dual420));
    assert!(!offers_chroma(&single, ChromaMode::Dual420));
    assert_eq!(check_chroma(&both), None);
    assert!(matches!(
        check_chroma(&caps(vec![ChromaMode::Native444])),
        Some(ServerMsg::Error { code: ERROR_NO_CHROMA, .. })
    ));
    assert_eq!(pick_chroma(&both, VideoPipeline::Gpu, false, false), ChromaMode::Dual420);
    assert_eq!(pick_chroma(&single, VideoPipeline::Gpu, false, false), ChromaMode::Single420);
    assert_eq!(streams(ChromaMode::Dual420), 2);
    assert_eq!(streams(ChromaMode::Single420), 1);
    assert_eq!(pick_tier(VideoMode::Gpu, Some(true)), VideoPipeline::Gpu);
    assert_eq!(pick_tier(VideoMode::Gpu, None), VideoPipeline::Cpu);
    assert_eq!(pick_tier(VideoMode::Cpu, Some(true)), VideoPipeline::Cpu);
    assert_eq!(headless_size(1281, 721), Size { width: 1280, height: 720 });
}

#[test]
fn messages_of_the_client_are_sorted_out() {
    assert_eq!(
        input_cmd(&ClientMsg::Key { keycode: 30, pressed: true }),
        Some(InputCmd::Key { code: 30, pressed: true })
    );
    let value = F64 { bits: 1.5f64.to_bits() };
    assert_eq!(
        input_cmd(&ClientMsg::PointerAxis { axis: Axis::Vertical, value, discrete: None, stop: true }),
        Some(InputCmd::Axis { axis: Axis::Vertical, value, discrete: None, stop: true })
    );
    assert_eq!(input_cmd(&ClientMsg::Bye), None);
    assert!(matches!(client_action(ClientMsg::Bye), ClientAction::End));
    assert!(matches!(client_action(ClientMsg::RequestKeyframe), ClientAction::Keyframe));
    assert!(matches!(
        client_action(ClientMsg::FrameAck { frame_id: 9, decoded_at_ms: 0 }),
        ClientAction::Acked { frame_id: 9 }
    ));
    let scale = F32 { bits: 2.0f32.to_bits() };
    assert!(matches!(
        client_action(ClientMsg::Resize { width: 800, height: 600, scale }),
        ClientAction::Resize { width: 800, height: 600, .. }
    ));
    assert_eq!(clipboard_payload(&ClipboardMsg::Data { id: 1, offset: 0, data_len: 5, done: true }), Some(5));
    assert_eq!(clipboard_payload(&ClipboardMsg::Abort { id: 1 }), Some(0));
}

fn session() -> Session {
    let b = Bounds { max: 10_000_000, min: 100_000, floor_bpf: 1000 };
    let size = Size { width: 1280, height: 720 };
    Session::new(
        0,
        size,
        true,
        size,
        size,
        VideoPipeline::Cpu,
        ChromaMode::Dual420,
        true,
        RateController::new(b, 2, None),
    )
}

#[test]
fn frames_are_paced_and_the_first_is_a_keyframe() {
    let mut s = session();
    assert!(!s.on_frame(Size { width: 1280, height: 720 }));
    let p = s.pump_encoder(0, true, true);
    assert_eq!(p.encode, Encode::Newest);
    assert!(s.take_keyframe());
    assert!(!s.take_keyframe());
    s.on_sent(MS, 0, false, 0, 1000, 1000, 100_000, 60);
    assert_eq!(s.frame_id, 1);
    s.on_frame(Size { width: 1280, height: 720 });
    assert_eq!(s.pump_encoder(2 * MS, true, true).encode, Encode::Nothing);
    let interval = s.frame_interval();
    assert_eq!(interval, 33_333_333);
    assert_eq!(s.pump_encoder(interval, true, true).encode, Encode::Newest);
}

#[test]
fn a_full_path_holds_the_frame_back() {
    let mut s = session();
    s.on_frame(Size { width: 1280, height: 720 });
    assert_eq!(s.pump_encoder(0, true, false).encode, Encode::Nothing);
    assert!(s.ctl.blocked_at_cap);
    assert_eq!(s.pump_encoder(0, false, true).encode, Encode::Nothing);
    assert_eq!(s.pump_encoder(0, true, true).encode, Encode::Newest);
    assert!(byte_cap_has_room(0, 500, 100));
    assert!(byte_cap_has_room(50, 50, 100));
    assert!(!byte_cap_has_room(51, 50, 100));
}

#[test]
fn a_still_picture_is_refined_a_few_times() {
    let mut s = session();
    s.on_frame(Size { width: 1280, height: 720 });
    assert_eq!(s.pump_encoder(0, true, true).encode, Encode::Newest);
    s.take_keyframe();
    s.on_sent(0, 0, false, 0, 1000, 1000, 100_000, 60);
    let mut now = s.refine_wake();
    let mut passes = 0;
    for _ in 0..50 {
        if s.pump_encoder(now, true, true).encode == Encode::Again {
            passes += 1;
            s.on_sent(now, now, true, 0, 1000, 1000, 100_000, 60);
            s.on_refined(100_000);
        }
        now += 200 * MS;
    }
    assert_eq!(passes, MAX_REFINES as u32);
}

#[test]
fn a_window_that_did_not_change_is_ignored() {
    let mut s = session();
    assert!(matches!(s.resize(100, 100, true), Resize::Ignore));
    assert!(matches!(s.resize(800, 600, true), Resize::SetMode(Size { width: 800, height: 600 })));
    let mut m = Session { headless: false, ..session() };
    assert!(matches!(m.resize(800, 600, true), Resize::Fit(Size { width: 800, height: 600 })));
}

#[test]
fn a_level_that_changes_nothing_keeps_the_encoder() {
    let mut s = session();
    let want = s.level_size();
    assert_eq!(want, Size { width: 1280, height: 720 });
    assert!(matches!(s.plan(want), Plan::Keep));
    let half = Size { width: 640, height: 360 };
    assert!(matches!(s.plan(half), Plan::Rebuild { size, .. } if size == half));
    s.rebuilt(0, half, ChromaMode::Single420);
    assert!(s.want_keyframe);
    assert!(matches!(
        s.config_msg(1000),
        ServerMsg::StreamConfig { width: 640, height: 360, view_width: 1280, view_height: 720, .. }
    ));
    assert!(!worth_rebuilding(1_000_000, 60, 1_000_000, 60));
    assert!(worth_rebuilding(1_000_000, 60, 4_000_000, 60));
}

#[test]
fn cursors_are_numbered() {
    let mut s = session();
    let first = s.on_cursor(Size { width: 24, height: 24 }, 1, 2, 2304);
    let ServerMsg::CursorShape { id, argb_len: 2304, .. } = first else { panic!("{first:?}") };
    let pos = s.on_cursor_pos(F64 { bits: 0 }, F64 { bits: 0 }, true);
    assert!(matches!(pos, ServerMsg::CursorPos { shape_id, .. } if shape_id == id));
}

fn text_offer() -> Vec<String> {
    vec!["text/plain".to_string()]
}

#[test]
fn a_remote_offer_is_advertised_and_pasted() {
    let mut b = Bridge::new();
    assert!(matches!(b.on_paste("text/plain"), Paste::Nothing | Paste::Item { .. }));
    let file = ClipboardFile { path: "a".into(), size: 3, dir: false };
    let advertised = b.on_remote_offer(3, text_offer(), vec![file]);
    assert!(advertised.contains(&"text/uri-list".to_string()));
    assert!(matches!(b.on_paste("text/uri-list"), Paste::Files { spooled: false, new_spool: true }));
    b.spool_made();
    assert!(matches!(b.on_paste("text/uri-list"), Paste::Files { spooled: false, new_spool: false }));
    b.files_spooled();
    assert!(matches!(b.on_paste("text/uri-list"), Paste::Files { spooled: true, .. }));
}

#[test]
fn a_local_selection_is_offered_and_served() {
    let mut b = Bridge::new();
    let s = b.on_selection(text_offer());
    assert!(!s.wants_files);
    let offer = b.on_listed(s, LocalFiles::default());
    assert!(matches!(offer, Some(ClipboardMsg::Offer { .. })));
    assert!(matches!(
        b.on_request(&ClipboardItem::Mime("text/plain".into()), true),
        Answer::Receive(m) if m == "text/plain"
    ));
    assert!(matches!(b.on_request(&ClipboardItem::Mime("text/plain".into()), false), Answer::Refuse));
    assert!(matches!(b.on_request(&ClipboardItem::File(0), true), Answer::Refuse));
    // A later selection makes an earlier listing stale.
    let old = b.on_selection(text_offer());
    b.on_selection(text_offer());
    assert_eq!(b.on_listed(old, LocalFiles::default()), None);
    assert!(uri_list_usable(true, URI_LIST_MAX));
    assert!(!uri_list_usable(true, URI_LIST_MAX + 1));
    assert!(!uri_list_usable(false, 0));
}

#[test]
fn a_new_output_settles_on_what_the_compositor_chose() {
    let want = Size { width: 1280, height: 720 };
    let mut wait = ModeWait::new(want);
    assert!(!wait.on_poll(&[], "H"));
    assert_eq!(wait.settled(), None);
    let mut mon = monitor("H", 0, false, false);
    mon.width = 1365;
    assert!(!wait.on_poll(&[monitor("A", 0, false, false), mon.clone()], "H"));
    let size = Size { width: 1364, height: 1080 };
    assert_eq!(wait.settled(), Some(Mode { size, scale: mon.scale }));
    mon.width = 1280;
    mon.height = 720;
    assert!(wait.on_poll(&[mon.clone()], "H"));
    assert_eq!(wait.settled(), Some(Mode { size: want, scale: mon.scale }));
}

#[test]
fn a_mode_is_waited_for_so_often() {
    let mut wait = ModeWait::new(Size { width: 2, height: 2 });
    for _ in 1..MODE_POLLS {
        assert!(!wait.on_poll(&[], "H"));
    }
    assert!(wait.on_poll(&[], "H"));
}

#[test]
fn the_scale_in_effect_is_the_last_one_found() {
    let f = |v: f32| F32 { bits: v.to_bits() };
    let size = Size { width: 1920, height: 1080 };
    let mons = [monitor("A", 0, false, false), monitor("H", 0, false, false)];
    assert_eq!(scale_at(&mons, "H", size), Some(f(1.0)));
    assert_eq!(scale_at(&mons, "H", Size { width: 1280, height: 720 }), None);
    let mut wait = ScaleWait::new(f(1.6));
    assert!(!wait.on_poll(None, false));
    assert_eq!(wait.scale(), f(1.6));
    assert!(!wait.on_poll(Some(f(1.0)), false));
    assert_eq!(wait.scale(), f(1.0));
    assert!(wait.on_poll(Some(f(1.5)), true));
    assert_eq!(wait.scale(), f(1.5));
}
