use gliff::clipboard::flow::CHUNK;
use gliff::clipboard::msg::{ClipboardFile, ClipboardItem};
use gliff::clipboard::spool::LocalFiles;
use gliff::gpu::device::{
    drm_dev_number, enabled_optional, memory_type, pick_device, pick_families, DevNumber, Device, Families,
    QueueFamily, Timeline,
};
use gliff::gpu::driver::driver_flags;
use gliff::msg::client::ClientMsg;
use gliff::msg::types::ChromaMode;
use gliff::probe::checks::{
    count_opaque, first_text, has_global, pick_output, protocols, saw, status, tier_floor, typed_keys, Captured, Watch,
};
use gliff::probe::picture::{bench_bgra, rgb_channels, synthetic_bgra, to_rgb};
use gliff::probe::roundtrip::{Failure, Roundtrip};
use gliff::probe::serve::{NextFile, Options, Received, ServeTest, Served, Wanted};

fn strs(v: &[&str]) -> Vec<String> {
    v.iter().map(|s| s.to_string()).collect()
}

fn options() -> Options {
    Options { text: None, file: None, files: LocalFiles::default(), keep_file: false, keep_dir: false }
}

#[test]
fn frames_are_acked_and_followed_by_requests() {
    let mut o = options();
    o.text = Some("hello".into());
    let mut t = ServeTest::new(o, 5, true, Some("km".into()));
    assert_eq!(t.on_frame(0, true, true), vec![ClientMsg::FrameAck { frame_id: 0, decoded_at_ms: 0 }]);
    let second = t.on_frame(1, false, true);
    assert_eq!(second.len(), 4);
    assert_eq!(second[1], ClientMsg::Keymap { keymap: "km".into() });
    assert_eq!(second[3], ClientMsg::Key { keycode: 42, pressed: false });
    let third = t.on_frame(2, false, true);
    let two = 2.0f32.to_bits();
    assert!(matches!(&third[1], ClientMsg::Resize { width: 800, height: 600, scale } if scale.bits == two));
    let fourth = t.on_frame(3, false, true);
    match &fourth[1] {
        ClientMsg::ClipboardOffer { serial: 1, mime_types, files } => {
            assert_eq!((mime_types.len(), files.len()), (5, 0))
        }
        other => panic!("{other:?}"),
    }
    assert!(t.waits());
    t.on_frame(4, false, true);
    assert!(!t.waits() && t.passes());
}

#[test]
fn the_scale_is_judged_by_the_session() {
    let mut t = ServeTest::new(options(), 4, true, None);
    assert!(t.on_config(800, 600, ChromaMode::Dual420, 2000));
    assert_eq!(t.scale_verdict(), Some(true));
    let mut m = ServeTest::new(options(), 4, false, None);
    assert!(!m.on_config(800, 600, ChromaMode::Single420, 2000));
    assert_eq!(m.scale_verdict(), Some(false));
    m.on_config(800, 600, ChromaMode::Single420, 500);
    assert_eq!(m.scale_verdict(), Some(true));
    assert_eq!(ServeTest::new(options(), 3, false, None).scale_verdict(), None);
}

fn file(path: &str, dir: bool) -> ClipboardFile {
    ClipboardFile { path: path.into(), size: 0, dir }
}

#[test]
fn offered_files_are_fetched_one_by_one() {
    let mut o = options();
    o.keep_dir = true;
    let mut t = ServeTest::new(o, 1, true, None);
    let files = vec![file("d", true), file("d/a", false), file("b", false)];
    assert!(matches!(t.on_offer(9, &[], files), Wanted::Files));
    let (dirs, next) = t.next_file(0);
    assert_eq!(dirs, vec!["d"]);
    match next {
        NextFile::Fetch { index: 1, path, msg } => {
            assert_eq!(path, "d/a");
            assert_eq!(msg, ClientMsg::ClipboardRequest { id: 5, serial: 9, item: ClipboardItem::File(1) });
        }
        other => panic!("{other:?}"),
    }
    assert!(matches!(t.on_data(5, false, b"ab"), Received::Ack(ClientMsg::ClipboardAck { id: 5, received: 2 })));
    assert!(matches!(t.on_data(5, true, b"c"), Received::File { index: 1, data } if data == b"abc"));
    assert!(matches!(t.next_file(2), (_, NextFile::Fetch { index: 2, .. })));
    assert!(matches!(t.next_file(3), (_, NextFile::Done)));
    t.on_offer(10, &[], vec![file("../x", false)]);
    assert!(matches!(t.next_file(0), (_, NextFile::Unsafe)));
}

#[test]
fn one_item_of_an_offer_is_asked_for() {
    let mut o = options();
    o.keep_file = true;
    let mut t = ServeTest::new(o, 1, true, None);
    match t.on_offer(2, &strs(&["text/plain", "application/octet-stream"]), Vec::new()) {
        Wanted::Item(ClientMsg::ClipboardRequest { id: 1, serial: 2, item: ClipboardItem::Mime(m) }) => {
            assert_eq!(m, "application/octet-stream")
        }
        other => panic!("{other:?}"),
    }
    assert!(matches!(t.on_data(1, true, b"x"), Received::Octets(d) if d == b"x"));
    assert!(matches!(t.on_offer(3, &strs(&["STRING"]), Vec::new()), Wanted::Item(_)));
    assert!(matches!(t.on_data(1, true, b"y"), Received::Text(d) if d == b"y"));
    assert!(matches!(t.on_offer(4, &strs(&["image/png"]), Vec::new()), Wanted::Nothing));
}

#[test]
fn served_chunks_carry_the_item_within_the_window() {
    let mut o = options();
    let data: Vec<u8> = (0..6 * CHUNK + 3).map(|i| (i % 241) as u8).collect();
    o.file = Some(data.clone());
    o.text = Some("ü".into());
    o.files.paths.push("/tmp/a".into());
    let mut t = ServeTest::new(o, 1, true, None);
    assert!(matches!(t.on_request(3, &ClipboardItem::Mime("application/octet-stream".into())), Served::Bytes));
    let mut got = Vec::new();
    let mut chunks = t.push_chunks();
    assert_eq!(chunks.len(), 4);
    while !chunks.is_empty() {
        for c in &chunks {
            assert_eq!(c.offset as usize, got.len());
            assert!(matches!(c.msg(), ClientMsg::ClipboardData { id: 3, done, .. } if done == c.done));
            got.extend_from_slice(&c.bytes);
        }
        t.on_ack();
        chunks = t.push_chunks();
    }
    assert_eq!(got, data);
    assert!(matches!(t.on_request(4, &ClipboardItem::Mime("TEXT".into())), Served::Bytes));
    let chunks = t.push_chunks();
    assert_eq!((chunks.len(), chunks[0].bytes.as_slice(), chunks[0].done), (1, "ü".as_bytes(), true));
    assert!(matches!(t.on_request(5, &ClipboardItem::File(0)), Served::Read(0)));
    assert!(matches!(
        t.on_request(6, &ClipboardItem::File(1)),
        Served::Abort(ClientMsg::ClipboardAbort { id: 6 })
    ));
    assert!(matches!(t.on_request(7, &ClipboardItem::Mime("image/png".into())), Served::Abort(_)));
}

#[test]
fn outputs_are_compared_in_order() {
    let mut r = Roundtrip::new(6, 800, true);
    let mut compared = Vec::new();
    let mut rates = Vec::new();
    while let Some(step) = r.step() {
        rates.extend(step.bitrate);
        let key = r.sent == 0 || step.force;
        // The first unit gives no picture yet.
        let picture = r.sent > 0;
        compared.extend(r.on_packet(key, picture).unwrap());
    }
    assert_eq!(rates, vec![200, 800]);
    assert!(!r.is_complete());
    compared.extend(r.on_flush(true));
    assert_eq!(compared, vec![0, 1, 2, 3, 4, 5]);
    assert!(r.is_complete());
    assert_eq!(r.on_flush(true), None);
}

#[test]
fn keyframes_are_demanded() {
    let mut r = Roundtrip::new(2, 1, false);
    assert_eq!(r.on_packet(false, true), Err(Failure::FirstPacket));
    assert_eq!(r.on_packet(true, true), Ok(Some(0)));
    assert!(r.step().unwrap().force);
    assert_eq!(r.on_packet(false, true), Err(Failure::NotForced));
}

#[test]
fn pictures_are_what_they_are_drawn_as() {
    let f = synthetic_bgra(64, 2, 0);
    assert_eq!(f.len(), 64 * 2 * 4);
    assert_eq!(&f[..4], &[255, 0, 0, 255]);
    assert_eq!(&f[32 * 4..32 * 4 + 4], &[0, 255, 0, 255]);
    let g = synthetic_bgra(128, 2, 0);
    assert_eq!(&g[(128 + 100) * 4..(128 + 100) * 4 + 4], &[(100 * 255 / 128) as u8, 127, 128, 255]);
    assert_eq!(rgb_channels(&[1, 2, 3, 4, 5, 6, 7, 8, 9]), vec![1, 2, 3, 5, 6, 7]);
    assert_eq!(to_rgb(&[1, 2, 3, 4]), vec![3, 2, 1]);
    assert_eq!(&bench_bgra(300)[257 * 4..257 * 4 + 4], &[1, 32, 4, 255]);
}

#[test]
fn checks_are_told_in_a_line() {
    assert_eq!(status(true, "x"), "PASS x");
    assert_eq!(status(false, "x"), "FAIL x");
    let globals = strs(&["a", "zwlr_data_control_manager_v1"]);
    assert!(has_global(&globals, "a"));
    let p = protocols(&globals, &["a", "b"]);
    assert_eq!((p.required, p.clipboard, p.shortcuts, p.all), (vec![true, false], true, false, false));
    assert_eq!(pick_output(None, strs(&["DP-1", "DP-2"])), Some("DP-1".into()));
    assert_eq!(pick_output(Some("X".into()), Vec::new()), Some("X".into()));
    assert_eq!(pick_output(None, Vec::new()), None);
    assert_eq!(typed_keys("hello \n"), (vec![35, 18, 38, 38, 24, 57, 28], None));
    assert_eq!(typed_keys("hex"), (vec![35, 18], Some('x')));
    assert_eq!(tier_floor(true), ("GPU", 35));
    assert_eq!(tier_floor(false), ("CPU", 32));
    assert!(saw(&strs(&["Escape"]), "Escape"));
    assert_eq!(first_text(&strs(&["image/png", "TEXT"])), Some(1));
    assert_eq!(count_opaque(&[0, 0, 0, 1, 0, 0, 0, 0]), 1);
}

#[test]
fn a_capture_waits_for_what_was_asked() {
    let mut w = Watch::new(true);
    assert!(w.on_event(Captured::Ready) && w.waits());
    assert!(w.on_event(Captured::Frame) && w.waits());
    assert!(w.on_event(Captured::CursorShape) && !w.waits());
    assert!(!w.on_event(Captured::Stopped));
    let mut plain = Watch::new(false);
    plain.on_event(Captured::Frame);
    assert!(!plain.waits());
}

const NONE: QueueFamily = QueueFamily { compute: false, graphics: false, encode_h264: false, decode_h264: false };

#[test]
fn compute_stays_off_the_compositors_queue() {
    let graphics = QueueFamily { compute: true, graphics: true, ..NONE };
    let alone = QueueFamily { compute: true, ..NONE };
    let video = QueueFamily { encode_h264: true, decode_h264: true, ..NONE };
    let f = pick_families(&[graphics, alone, video]).unwrap();
    assert_eq!(f, Families { compute: 1, encode: Some(2), decode: Some(2) });
    assert_eq!(f.all(), vec![1, 2]);
    assert_eq!(pick_families(&[graphics]).unwrap().compute, 0);
    assert_eq!(pick_families(&[video]), None);
}

#[test]
fn the_device_asked_for_is_picked() {
    let dev = |minor: i64, ext: &[&str]| Device {
        render: Some(DevNumber { major: 226, minor }),
        primary: None,
        extensions: strs(ext),
        families: vec![QueueFamily { compute: true, ..NONE }],
    };
    let all = [dev(128, &["a"]), dev(129, &["a", "b", "c"])];
    assert_eq!(pick_device(&all, None, &["a"]).unwrap().0, 0);
    assert_eq!(pick_device(&all, None, &["a", "b"]).unwrap().0, 1);
    assert_eq!(pick_device(&all, Some(DevNumber { major: 226, minor: 129 }), &["a"]).unwrap().0, 1);
    assert!(pick_device(&all, Some(DevNumber { major: 1, minor: 1 }), &["a"]).is_none());
    assert_eq!(enabled_optional(&all[1], &["x", "c", "b"]), vec!["c", "b"]);
}

#[test]
fn device_numbers_and_memory_types_are_read() {
    // /dev/dri/renderD128: major 226, minor 128.
    assert_eq!(drm_dev_number((226 << 8) | 128), DevNumber { major: 226, minor: 128 });
    assert_eq!(drm_dev_number((226 << 8) | 0x40 | (1 << 20)), DevNumber { major: 226, minor: 0x140 });
    assert_eq!(memory_type(&[1, 6, 7], 0b110, 6), Some(1));
    assert_eq!(memory_type(&[1, 6, 7], 0b100, 6), Some(2));
    assert_eq!(memory_type(&[1, 6, 7], 0b001, 6), None);
    let mut t = Timeline::new();
    assert_eq!((t.advance(), t.advance()), (1, 2));
}

#[test]
fn driver_flags_keep_what_is_there() {
    assert_eq!(driver_flags(""), Some("video-decode,video-encode".into()));
    assert_eq!(driver_flags(" bindless , video-encode"), Some("bindless,video-encode,video-decode".into()));
    assert_eq!(driver_flags("video-encode,,video-decode"), None);
}
