use gliff::codec::{drained, is_keyframe, shown, stream_frames, CodecError, Decoder, Encoder, FrameKind};
use gliff::convert::frame::bgra_to_yuv444;
use gliff::convert::split::split_yuv444;
use gliff::convert::unpack::yuv444_to_bgra;
use gliff::probe::picture::{rgb_channels, synthetic_bgra};
use gliff::video::{
    decoded_to_bgra, EncoderSettings, Held, Picture, SizeError, VideoMode, MAX_HEIGHT, MAX_WIDTH,
};
use openh264::encoder::{
    BitRate, Encoder as H264Encoder, EncoderConfig, FrameRate, Profile, QpRange, RateControlMode, UsageType, VuiConfig,
};
use openh264::OpenH264API;

fn h264_encoder(s: &EncoderSettings) -> H264Encoder {
    s.check_size().unwrap();
    let config = EncoderConfig::new()
        .debug(false)
        .num_threads(2)
        .max_slice_len(1 << 20)
        .usage_type(UsageType::ScreenContentRealTime)
        .rate_control_mode(RateControlMode::Bitrate)
        .qp(QpRange::new(12, 35))
        .bitrate(BitRate::from_bps(s.bitrate))
        .max_frame_rate(FrameRate::from_hz(s.framerate as f32))
        .skip_frames(false)
        .profile(Profile::Baseline)
        .vui(VuiConfig::bt709());
    H264Encoder::with_api_config(OpenH264API::from_source(), config).unwrap()
}

fn encoder(s: EncoderSettings, dual: bool) -> Encoder {
    Encoder::new(s, h264_encoder(&s), dual.then(|| h264_encoder(&s)))
}

fn psnr(a: &[u8], b: &[u8]) -> f64 {
    assert_eq!(a.len(), b.len());
    let se: f64 = a.iter().zip(b).map(|(x, y)| (*x as f64 - *y as f64).powi(2)).sum();
    let mse = se / a.len() as f64;
    if mse == 0.0 {
        return f64::INFINITY;
    }
    10.0 * (255.0 * 255.0 / mse).log10()
}

/// What the conversions make of the same pixels in the same chroma mode, so
/// 4:2:0's inherent loss is not counted against the codec.
fn reference_bgra(src: &[u8], w: usize, h: usize, dual: bool) -> Vec<u8> {
    if dual {
        return yuv444_to_bgra(&bgra_to_yuv444(src, w * 4, w, h));
    }
    let (f, _) = stream_frames(src, w, h, false);
    let picture = Picture { y: &f.y, u: &f.u, v: &f.v, strides: (w, w / 2, w / 2), width: w, height: h };
    decoded_to_bgra(&picture).pixels
}

/// Pictures come out in order, at most one access unit late, so outputs are
/// compared against the sources in submission order.
fn roundtrip(dual: bool) {
    let (w, h) = (640u32, 360u32);
    let settings = EncoderSettings { width: w, height: h, bitrate: 20_000_000, framerate: 60 };
    let mut encoder = encoder(settings, dual);
    let mut decoder = Decoder::new(dual).expect("decoder");
    let mut sources = Vec::new();
    let mut outputs = Vec::new();
    for i in 0..10 {
        let src = synthetic_bgra(w as usize, h as usize, i);
        let force = i == 5;
        let packet = encoder.encode_bgra(&src, force).expect("encode");
        if i == 0 || force {
            assert!(packet.keyframe, "frame {i} should be a keyframe");
        }
        assert_eq!(packet.aux.is_some(), dual);
        sources.push(src);
        let aux = packet.aux.as_deref().unwrap_or(&[]);
        if let Some(out) = decoder.decode(&packet.main, aux).expect("decode") {
            outputs.push(out);
        }
    }
    if let Some(out) = decoder.flush().expect("flush") {
        outputs.push(out);
    }
    assert!(outputs.len() >= 9, "decoded only {}/10 frames", outputs.len());
    let mut min_psnr = f64::MAX;
    for (src, out) in sources.iter().zip(&outputs) {
        assert_eq!((out.width, out.height), (w, h));
        let reference = reference_bgra(src, w as usize, h as usize, dual);
        min_psnr = min_psnr.min(psnr(&rgb_channels(&reference), &rgb_channels(&out.pixels)));
    }
    assert!(min_psnr > 30.0, "min RGB PSNR {min_psnr:.1} dB too low");
}

#[test]
fn dual420_roundtrip_is_high_quality() {
    roundtrip(true);
}

#[test]
fn single420_roundtrip_is_high_quality() {
    roundtrip(false);
}

#[test]
fn set_bitrate_keeps_the_stream_decodable() {
    let settings = EncoderSettings { width: 320, height: 240, bitrate: 8_000_000, framerate: 60 };
    let mut encoder = encoder(settings, false);
    let mut decoder = Decoder::new(false).expect("decoder");
    let mut decoded = 0;
    for i in 0..6 {
        if i == 3 {
            assert!(encoder.set_bitrate(2_000_000));
            let s = encoder.settings();
            assert_eq!(s.bitrate, 2_000_000);
            encoder.replace(h264_encoder(&s), None);
        }
        let src = synthetic_bgra(320, 240, i);
        let packet = encoder.encode_bgra(&src, false).expect("encode");
        if decoder.decode(&packet.main, &[]).expect("decode").is_some() {
            decoded += 1;
        }
    }
    assert!(decoded >= 5, "decoded only {decoded}/6 frames");
}

/// Dense, high-contrast detail, like small text.
fn detailed_bgra(w: usize, h: usize) -> Vec<u8> {
    let mut seed = 0x2545_f491_u32;
    let mut out = vec![0u8; w * h * 4];
    for px in out.chunks_exact_mut(4) {
        seed ^= seed << 13;
        seed ^= seed >> 17;
        seed ^= seed << 5;
        let v = if seed % 3 == 0 { 230 } else { 20 };
        px.copy_from_slice(&[v, v, v, 255]);
    }
    out
}

#[test]
fn detailed_change_beats_the_default_screen_qp_floor() {
    let (w, h) = (640usize, 360usize);
    let settings =
        EncoderSettings { width: w as u32, height: h as u32, bitrate: (w * h * 60 / 10) as u32, framerate: 60 };
    let mut encoder = encoder(settings, true);
    let mut decoder = Decoder::new(true).expect("decoder");
    let dark = vec![16u8; w * h * 4];
    let detail = detailed_bgra(w, h);
    let mut last = None;
    for src in [&dark, &detail, &detail] {
        let packet = encoder.encode_bgra(src, false).expect("encode");
        let aux = packet.aux.as_deref().unwrap_or(&[]);
        last = decoder.decode(&packet.main, aux).expect("decode").or(last);
    }
    last = decoder.flush().expect("flush").or(last);
    let out = last.expect("a decoded picture");
    let reference = reference_bgra(&detail, w, h, true);
    let p = psnr(&rgb_channels(&reference), &rgb_channels(&out.pixels));
    assert!(p > 34.5, "detailed change PSNR {p:.1} dB");
}

#[test]
fn video_mode_resolves_cli_over_env() {
    assert_eq!(VideoMode::resolve(Some("cpu"), None), VideoMode::Cpu);
    assert_eq!(VideoMode::resolve(Some("gpu"), None), VideoMode::Gpu);
    assert_eq!(VideoMode::resolve(Some("gpu"), Some("cpu")), VideoMode::Gpu);
    assert_eq!(VideoMode::resolve(None, Some("cpu")), VideoMode::Cpu);
    assert_eq!(VideoMode::resolve(Some("npu"), Some("cpu")), VideoMode::Cpu);
    assert_eq!(VideoMode::resolve(None, Some("npu")), VideoMode::Gpu);
}

#[test]
fn sizes_that_cannot_be_encoded_are_refused() {
    let size = |width, height| EncoderSettings { width, height, bitrate: 1, framerate: 1 }.check_size();
    assert_eq!(size(MAX_WIDTH, MAX_HEIGHT), Ok(()));
    assert_eq!(size(MAX_WIDTH + 2, 2), Err(SizeError::TooLarge));
    assert_eq!(size(2, MAX_HEIGHT + 2), Err(SizeError::TooLarge));
    assert_eq!(size(3, 2), Err(SizeError::NotEven));
    assert_eq!(size(0, 2), Err(SizeError::NotEven));
}

#[test]
fn a_rate_change_asks_for_new_encoders() {
    let mut s = EncoderSettings { width: 2, height: 2, bitrate: 5, framerate: 60 };
    assert!(!s.set_rate(5, 60));
    assert!(s.set_rate(6, 0));
    assert_eq!((s.bitrate, s.framerate), (6, 1));
    assert_eq!(EncoderSettings { framerate: 60, ..s }.timestamp_ms(90), 1500);
}

#[test]
fn held_pictures_are_counted() {
    let mut held = Held::new();
    assert!(!held.has_pending());
    held.feed();
    held.feed();
    held.decoded(true, Some(true));
    assert!(held.has_pending());
    assert!(held.drained(true, None));
    assert!(!held.has_pending());
    held.feed();
    assert!(!held.drained(true, Some(false)));
    assert!(!held.has_pending());
}

#[test]
fn streams_out_of_step_are_an_error() {
    let (y, c) = (vec![100u8; 16], vec![128u8; 4]);
    let p = || Picture { y: &y, u: &c, v: &c, strides: (4, 2, 2), width: 4, height: 4 };
    assert!(matches!(shown(Some(p()), Some(None)), Err(CodecError::OutOfStep)));
    assert!(matches!(shown(None, Some(Some(p()))), Err(CodecError::OutOfStep)));
    assert!(matches!(shown(None, Some(None)), Ok(None)));
    assert!(matches!(drained(Some(p()), Some(None)), Ok(None)));
    assert_eq!(shown(Some(p()), None).unwrap().unwrap().pixels.len(), 64);
    let small = Picture { width: 2, ..p() };
    assert!(matches!(shown(Some(p()), Some(Some(small))), Err(CodecError::SizesDiffer)));
    let broken = Picture { height: 6, ..p() };
    assert!(matches!(shown(Some(broken), None), Err(CodecError::Picture)));
}

#[test]
fn garbage_is_reported_by_the_codec() {
    let mut d = Decoder::new(false).unwrap();
    let r = d.decode(&[0, 0, 0, 1, 0x67, 1, 2, 3], &[]);
    assert!(matches!(r, Err(CodecError::Codec(_)) | Ok(None)), "{r:?}");
    assert!(d.has_pending());
}

#[test]
fn kinds_of_frames_are_told_apart() {
    assert!(is_keyframe(FrameKind::Idr));
    assert!(is_keyframe(FrameKind::I));
    assert!(!is_keyframe(FrameKind::P));
    assert!(!is_keyframe(FrameKind::Skip));
    assert!(!is_keyframe(FrameKind::IpMixed));
    assert!(!is_keyframe(FrameKind::Invalid));
}

#[test]
fn two_streams_carry_the_halves() {
    let src = synthetic_bgra(16, 8, 1);
    let (main, aux) = stream_frames(&src, 16, 8, true);
    let (m, a) = split_yuv444(&bgra_to_yuv444(&src, 64, 16, 8));
    assert_eq!(main, m);
    assert_eq!(aux, Some(a));
}

#[test]
fn a_broken_unit_keeps_the_streams_in_step() {
    let settings = EncoderSettings { width: 320, height: 240, bitrate: 8_000_000, framerate: 60 };
    let (mut lead, mut pair) = (encoder(settings, false), encoder(settings, false));
    let units: Vec<(Vec<u8>, Vec<u8>)> = (0..3)
        .map(|i| {
            let src = synthetic_bgra(320, 240, 10 * i);
            let main = lead.encode_bgra(&src, i == 2).expect("encode").main;
            (main, pair.encode_bgra(&src, false).expect("encode").main)
        })
        .collect();
    let shown_last = |second: &[u8]| {
        let mut d = Decoder::new(true).expect("decoder");
        d.decode(&units[0].0, &units[0].1).expect("decode");
        let second = d.decode(second, &units[1].1);
        (second.is_err(), d.decode(&units[2].0, &units[2].1).expect("decode").expect("a picture").pixels)
    };
    let (whole, want) = shown_last(&units[1].0);
    assert!(!whole);
    // The main unit is broken; the auxiliary one still counts.
    let (broken, got) = shown_last(&[0, 0, 0, 1, 0x67, 1, 2, 3]);
    assert!(broken);
    assert!(got == want);
}
