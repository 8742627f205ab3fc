//! The CPU video pipeline: OpenH264 between frames of pixels.

use crate::convert::frame::{bgra_to_i420, bgra_to_yuv444, pixel_cb, pixel_cr, pixel_luma, I420, Yuv444};
use crate::convert::pixel::luma_of;
use crate::convert::plane::{at, lemma_planes_equal};
use crate::convert::split::{is_split, split_yuv444};
use crate::video::{
    decoded_to_bgra, even, recombine_to_bgra, shows_both, shows_one, BgraFrame, EncodedFrame, EncoderSettings, Held,
    Picture, MAX_HEIGHT, MAX_WIDTH,
};
use openh264::decoder::Decoder as H264Decoder;
use openh264::encoder::Encoder as H264Encoder;
use openh264::formats::{YUVSlices, YUVSource};
use openh264::Error as H264Error;
use vstd::prelude::*;

verus! {

/// OpenH264's decoder.
#[verifier::external_type_specification]
#[verifier::external_body]
pub struct ExH264Decoder(H264Decoder);

/// OpenH264's encoder.
#[verifier::external_type_specification]
#[verifier::external_body]
pub struct ExH264Encoder(H264Encoder);

/// What OpenH264 reports where it fails.
#[verifier::external_type_specification]
#[verifier::external_body]
pub struct ExH264Error(H264Error);

/// Why a frame could not be encoded or decoded.
#[derive(Debug)]
pub enum CodecError {
    Codec(H264Error),
    /// Main and auxiliary streams fell out of step.
    OutOfStep,
    /// Main and auxiliary stream sizes differ.
    SizesDiffer,
    /// A picture without the planes that its size calls for.
    Picture,
}

/// A decoded picture of its own.
#[derive(Debug)]
pub struct Image {
    pub y: Vec<u8>,
    pub u: Vec<u8>,
    pub v: Vec<u8>,
    pub strides: (usize, usize, usize),
    pub width: usize,
    pub height: usize,
}

impl Image {
    /// The picture as it is read.
    pub fn picture(&self) -> (p: Picture<'_>)
        ensures
            p.y@ == self.y@,
            p.u@ == self.u@,
            p.v@ == self.v@,
            p.strides == self.strides,
            p.width == self.width,
            p.height == self.height,
    {
        Picture {
            y: self.y.as_slice(),
            u: self.u.as_slice(),
            v: self.v.as_slice(),
            strides: self.strides,
            width: self.width,
            height: self.height,
        }
    }
}

/// A frame of an encoder, by kind.
#[derive(Debug, Clone, Copy, PartialEq, Eq, Structural)]
pub enum FrameKind {
    Invalid,
    Idr,
    I,
    P,
    Skip,
    IpMixed,
}

/// What a picture holds.
#[verifier::ext_equal]
pub struct PictureView {
    pub y: Seq<u8>,
    pub u: Seq<u8>,
    pub v: Seq<u8>,
    pub strides: (usize, usize, usize),
    pub width: usize,
    pub height: usize,
}

pub open spec fn picture_view(p: Option<Picture>) -> Option<PictureView> {
    match p {
        Some(p) => Some(
            PictureView { y: p.y@, u: p.u@, v: p.v@, strides: p.strides, width: p.width, height: p.height },
        ),
        None => None,
    }
}

pub open spec fn image_view(i: Option<Image>) -> Option<PictureView> {
    match i {
        Some(i) => Some(
            PictureView { y: i.y@, u: i.u@, v: i.v@, strides: i.strides, width: i.width, height: i.height },
        ),
        None => None,
    }
}

/// Whether a decoder ejects its pictures after each unit.
#[derive(Debug, Clone, Copy, PartialEq, Eq, Structural)]
pub enum Flushing {
    Auto,
    Always,
    Never,
}

/// Whether a decoder was made to eject its pictures after each unit.
pub uninterp spec fn flushing(d: H264Decoder) -> Flushing;

/// Whether a decoder that had given some things has since given one more or
/// none.
pub open spec fn at_most_one_more(now: Seq<Option<PictureView>>, before: Seq<Option<PictureView>>) -> bool {
    now == before || (now.len() == before.len() + 1 && now.drop_last() == before)
}

/// The access units that a decoder was fed, in order.
pub uninterp spec fn fed(d: H264Decoder) -> Seq<Seq<u8>>;

/// What a decoder gave each time that it did not fail, in order: a picture or
/// none.
pub uninterp spec fn gave(d: H264Decoder) -> Seq<Option<PictureView>>;

/// What an encoder was asked for.
pub enum Asked {
    /// The next frame is to be a keyframe.
    Keyframe,
    /// This frame, at this time in milliseconds.
    Frame { y: Seq<u8>, u: Seq<u8>, v: Seq<u8>, width: int, height: int, ms: int },
}

/// What an encoder was asked for, in order.
pub uninterp spec fn asked(e: H264Encoder) -> Seq<Asked>;

/// An access unit that an encoder made.
#[verifier::ext_equal]
pub struct Unit {
    pub bytes: Seq<u8>,
    pub kind: FrameKind,
}

/// The access units that an encoder made, in order.
pub uninterp spec fn made(e: H264Encoder) -> Seq<Unit>;

/// The request to encode a frame.
pub open spec fn frame_asked(f: I420, ms: int) -> Asked {
    Asked::Frame { y: f.y@, u: f.u@, v: f.v@, width: f.width as int, height: f.height as int, ms }
}

/// `Decoder::with_api_config`, for the codec that is built in, and
/// `DecoderConfig::flush_after_decode`: the decoder flushes as asked, was fed
/// nothing and gave nothing; that there is one is not claimed.
#[verifier::external_body]
fn new_decoder(flush: Flushing) -> (res: Result<H264Decoder, H264Error>)
    ensures
        res matches Ok(d) ==> flushing(d) == flush,
        res matches Ok(d) ==> fed(d) == Seq::<Seq<u8>>::empty() && gave(d) == Seq::<Option<PictureView>>::empty(),
{
    let flush = match flush {
        Flushing::Auto => openh264::decoder::Flush::Auto,
        Flushing::Always => openh264::decoder::Flush::Flush,
        Flushing::Never => openh264::decoder::Flush::NoFlush,
    };
    let config = openh264::decoder::DecoderConfig::new().flush_after_decode(flush);
    H264Decoder::with_api_config(openh264::OpenH264API::from_source(), config)
}

/// `Decoder::decode`, with the picture copied: the decoder is fed the unit, and
/// gives what is returned. Which picture that is, and whether it is one, rests
/// on all the units that it was fed, and is left unsaid; the two chroma planes
/// have one stride.
#[verifier::external_body]
fn decode_unit(d: &mut H264Decoder, unit: &[u8]) -> (res: Result<Option<Image>, H264Error>)
    requires
        unit@.len() <= i32::MAX,
    ensures
        flushing(*final(d)) == flushing(*old(d)),
        fed(*final(d)) == fed(*old(d)).push(unit@),
        match res {
            Ok(i) => gave(*final(d)) == gave(*old(d)).push(image_view(i)),
            Err(_) => gave(*final(d)) == gave(*old(d)),
        },
        res matches Ok(Some(i)) ==> i.strides.1 == i.strides.2,
{
    match d.decode(unit)? {
        Some(p) => {
            let (width, height) = p.dimensions();
            let (y, u, v) = (p.y().to_vec(), p.u().to_vec(), p.v().to_vec());
            Ok(Some(Image { y, u, v, strides: p.strides(), width, height }))
        },
        None => Ok(None),
    }
}

/// `Decoder::flush_remaining`, the first picture of it, copied: the decoder is
/// fed no more, and gives what is returned. Which picture that is rests on all
/// the units that it was fed, and is left unsaid; the two chroma planes have
/// one stride.
#[verifier::external_body]
fn flush_unit(d: &mut H264Decoder) -> (res: Result<Option<Image>, H264Error>)
    ensures
        flushing(*final(d)) == flushing(*old(d)),
        fed(*final(d)) == fed(*old(d)),
        match res {
            Ok(i) => gave(*final(d)) == gave(*old(d)).push(image_view(i)),
            Err(_) => gave(*final(d)) == gave(*old(d)),
        },
        res matches Ok(Some(i)) ==> i.strides.1 == i.strides.2,
{
    match d.flush_remaining()?.first() {
        Some(p) => {
            let (width, height) = p.dimensions();
            let (y, u, v) = (p.y().to_vec(), p.u().to_vec(), p.v().to_vec());
            Ok(Some(Image { y, u, v, strides: p.strides(), width, height }))
        },
        None => Ok(None),
    }
}

/// `Encoder::encode_at` on a frame without gaps between its rows: the encoder
/// is asked for the frame, and makes the access unit that is returned, with its
/// kind. Which one that is rests on the frames encoded before and on the
/// encoder's threads, and is left unsaid.
#[verifier::external_body]
fn encode_unit(e: &mut H264Encoder, f: &I420, strides: (usize, usize, usize), ms: u64) -> (res: Result<
    (Vec<u8>, FrameKind),
    H264Error,
>)
    requires
        f.wf(),
        strides == (f.width, (f.width / 2) as usize, (f.width / 2) as usize),
        f.width <= i32::MAX,
        f.height <= i32::MAX,
        ms <= i64::MAX,
    ensures
        asked(*final(e)) == asked(*old(e)).push(frame_asked(*f, ms as int)),
        match res {
            Ok((bytes, kind)) => made(*final(e)) == made(*old(e)).push(Unit { bytes: bytes@, kind }),
            Err(_) => made(*final(e)) == made(*old(e)),
        },
{
    let planes = (f.y.as_slice(), f.u.as_slice(), f.v.as_slice());
    let source = YUVSlices::new(planes, (f.width, f.height), strides);
    let stream = e.encode_at(&source, openh264::Timestamp::from_millis(ms))?;
    let kind = match stream.frame_type() {
        openh264::encoder::FrameType::Invalid => FrameKind::Invalid,
        openh264::encoder::FrameType::IDR => FrameKind::Idr,
        openh264::encoder::FrameType::I => FrameKind::I,
        openh264::encoder::FrameType::P => FrameKind::P,
        openh264::encoder::FrameType::Skip => FrameKind::Skip,
        openh264::encoder::FrameType::IPMixed => FrameKind::IpMixed,
    };
    Ok((stream.to_vec(), kind))
}

/// The strides of a frame without gaps between its rows.
fn rows(f: &I420) -> (strides: (usize, usize, usize))
    ensures
        strides == (f.width, (f.width / 2) as usize, (f.width / 2) as usize),
{
    (f.width, f.width / 2, f.width / 2)
}

/// `Encoder::force_intra_frame`: the encoder is asked for a keyframe, and makes
/// nothing yet.
#[verifier::external_body]
fn force_keyframe(e: &mut H264Encoder)
    ensures
        asked(*final(e)) == asked(*old(e)).push(Asked::Keyframe),
        made(*final(e)) == made(*old(e)),
{
    e.force_intra_frame()
}

/// Whether a frame is what BGRA pixels convert to in 4:2:0: its chroma is
/// that of the first pixel of each 2x2 block.
pub open spec fn is_i420_of(bgra: Seq<u8>, w: int, h: int, f: I420) -> bool {
    &&& f.wf()
    &&& f.width == w
    &&& f.height == h
    &&& forall|row: int, x: int|
        0 <= row < h && 0 <= x < w ==> #[trigger] at(f.y@, w, row, x) == pixel_luma(bgra, w * 4, row, x)
    &&& forall|row: int, x: int|
        0 <= row < h / 2 && 0 <= x < w / 2 ==> #[trigger] at(f.u@, w / 2, row, x) == pixel_cb(
            bgra,
            w * 4,
            2 * row,
            2 * x,
        )
    &&& forall|row: int, x: int|
        0 <= row < h / 2 && 0 <= x < w / 2 ==> #[trigger] at(f.v@, w / 2, row, x) == pixel_cr(
            bgra,
            w * 4,
            2 * row,
            2 * x,
        )
}

/// Whether a frame is what BGRA pixels convert to in 4:4:4.
pub open spec fn is_yuv444_of(bgra: Seq<u8>, w: int, h: int, f: Yuv444) -> bool {
    &&& f.wf()
    &&& f.width == w
    &&& f.height == h
    &&& forall|row: int, x: int|
        0 <= row < h && 0 <= x < w ==> #[trigger] at(f.y@, w, row, x) == pixel_luma(bgra, w * 4, row, x)
    &&& forall|row: int, x: int|
        0 <= row < h && 0 <= x < w ==> #[trigger] at(f.u@, w, row, x) == pixel_cb(bgra, w * 4, row, x)
    &&& forall|row: int, x: int|
        0 <= row < h && 0 <= x < w ==> #[trigger] at(f.v@, w, row, x) == pixel_cr(bgra, w * 4, row, x)
}

/// Whether two frames are the halves of what BGRA pixels convert to in 4:4:4.
pub open spec fn is_pair_of(bgra: Seq<u8>, w: int, h: int, main: I420, aux: I420) -> bool {
    exists|yuv: Yuv444| #[trigger] is_yuv444_of(bgra, w, h, yuv) && is_split(yuv, main, aux)
}

/// Whether these are the frames that the streams of BGRA pixels carry: one in
/// 4:2:0, or the two halves of a 4:4:4 frame.
pub open spec fn carried(bgra: Seq<u8>, w: int, h: int, main: I420, aux: Option<I420>) -> bool {
    match aux {
        None => is_i420_of(bgra, w, h, main),
        Some(a) => is_pair_of(bgra, w, h, main, a),
    }
}

/// Whether frames of a size can be encoded.
pub open spec fn encodable(s: EncoderSettings) -> bool {
    0 < s.width <= MAX_WIDTH && 0 < s.height <= MAX_HEIGHT && s.width % 2 == 0 && s.height % 2 == 0
}

/// The frames that the streams of BGRA pixels carry.
pub fn stream_frames(bgra: &[u8], width: usize, height: usize, dual: bool) -> (frames: (I420, Option<I420>))
    requires
        0 < width <= MAX_WIDTH,
        0 < height <= MAX_HEIGHT,
        width % 2 == 0,
        height % 2 == 0,
        bgra@.len() >= width * height * 4,
    ensures
        carried(bgra@, width as int, height as int, frames.0, frames.1),
        frames.1 is Some == dual,
        frames.0.wf(),
        frames.0.width == width && frames.0.height == height,
        frames.1 matches Some(a) ==> a.wf() && a.width == width && a.height == height,
{
    proof {
        assert(width * height <= 3840 * 2160) by (nonlinear_arith)
            requires
                width <= 3840,
                height <= 2160,
        ;
        assert((height - 1) * (4 * width) + 4 * width <= width * height * 4) by (nonlinear_arith)
            requires
                height > 0,
                width > 0,
        ;
    }
    if dual {
        let yuv: Yuv444 = bgra_to_yuv444(bgra, 4 * width, width, height);
        let (main, aux): (I420, I420) = split_yuv444(&yuv);
        proof {
            assert(is_yuv444_of(bgra@, width as int, height as int, yuv));
            assert(is_split(yuv, main, aux));
            assert(is_pair_of(bgra@, width as int, height as int, main, aux));
        }
        (main, Some(aux))
    } else {
        let main: I420 = bgra_to_i420(bgra, 4 * width, width, height);
        proof {
            assert(is_i420_of(bgra@, width as int, height as int, main));
            assert(carried(bgra@, width as int, height as int, main, None));
        }
        (main, None)
    }
}

pub open spec fn is_intra(kind: FrameKind) -> bool {
    kind is Idr || kind is I
}

/// Whether an access unit of this kind can be decoded by itself.
pub fn is_keyframe(kind: FrameKind) -> (yes: bool)
    ensures
        yes == is_intra(kind),
{
    match kind {
        FrameKind::Idr => true,
        FrameKind::I => true,
        _ => false,
    }
}

/// The time of frame number `frames`, in milliseconds from the first.
pub open spec fn time_of(s: EncoderSettings, frames: u64) -> int {
    frames * 1000 / (if s.framerate == 0 {
        1int
    } else {
        s.framerate as int
    })
}

/// With a keyframe asked for, where one is forced.
pub open spec fn forced(before: Seq<Asked>, force: bool) -> Seq<Asked> {
    if force {
        before.push(Asked::Keyframe)
    } else {
        before
    }
}

/// With a frame asked for, and a keyframe before it where one is forced.
pub open spec fn asked_for(before: Seq<Asked>, force: bool, f: I420, ms: int) -> Seq<Asked> {
    forced(before, force).push(frame_asked(f, ms))
}

/// Server side: one encoder per session.
pub struct Encoder {
    main: H264Encoder,
    aux: Option<H264Encoder>,
    settings: EncoderSettings,
    frames: u64,
}

impl Encoder {
    pub closed spec fn dual(&self) -> bool {
        self.aux is Some
    }

    pub closed spec fn made_for(&self) -> EncoderSettings {
        self.settings
    }

    /// Frames encoded so far.
    pub closed spec fn count(&self) -> u64 {
        self.frames
    }

    /// What the main stream's encoder was asked for.
    pub closed spec fn main_asked(&self) -> Seq<Asked> {
        asked(self.main)
    }

    /// What the auxiliary stream's encoder was asked for, if there is one.
    pub closed spec fn aux_asked(&self) -> Seq<Asked> {
        match self.aux {
            Some(e) => asked(e),
            None => Seq::empty(),
        }
    }

    /// What the main stream's encoder made.
    pub closed spec fn main_made(&self) -> Seq<Unit> {
        made(self.main)
    }

    /// What the auxiliary stream's encoder made, if there is one.
    pub closed spec fn aux_made(&self) -> Seq<Unit> {
        match self.aux {
            Some(e) => made(e),
            None => Seq::empty(),
        }
    }

    /// An encoder of one stream or of two, made for these settings.
    pub fn new(settings: EncoderSettings, main: H264Encoder, aux: Option<H264Encoder>) -> (e: Encoder)
        ensures
            e.dual() == (aux is Some),
            e.made_for() == settings,
            e.count() == 0,
            e.main_asked() == asked(main),
            e.main_made() == made(main),
            aux matches Some(a) ==> e.aux_asked() == asked(a) && e.aux_made() == made(a),
    {
        Encoder { main, aux, settings, frames: 0 }
    }

    pub fn settings(&self) -> (s: EncoderSettings)
        ensures
            s == self.made_for(),
    {
        self.settings
    }

    pub fn is_dual(&self) -> (yes: bool)
        ensures
            yes == self.dual(),
    {
        self.aux.is_some()
    }

    /// Change the target bitrate and the frame rate it is spread over, so the
    /// per-frame budget matches the frames that really leave. OpenH264 fixes
    /// the target at initialization: where this returns true, the encoders
    /// have to be made anew.
    pub fn set_rate(&mut self, bitrate: u32, framerate: u32) -> (anew: bool)
        ensures
            final(self).dual() == old(self).dual(),
            final(self).count() == old(self).count(),
            final(self).main_asked() == old(self).main_asked(),
            final(self).aux_asked() == old(self).aux_asked(),
            final(self).main_made() == old(self).main_made(),
            final(self).aux_made() == old(self).aux_made(),
            anew == (bitrate != old(self).made_for().bitrate || framerate != old(self).made_for().framerate),
            final(self).made_for() == if anew {
                EncoderSettings {
                    bitrate,
                    framerate: if framerate == 0 {
                        1
                    } else {
                        framerate
                    },
                    ..old(self).made_for()
                }
            } else {
                old(self).made_for()
            },
    {
        self.settings.set_rate(bitrate, framerate)
    }

    /// Change the target bitrate of both streams.
    pub fn set_bitrate(&mut self, bitrate: u32) -> (anew: bool)
        ensures
            final(self).dual() == old(self).dual(),
            final(self).count() == old(self).count(),
            final(self).main_asked() == old(self).main_asked(),
            final(self).aux_asked() == old(self).aux_asked(),
            final(self).main_made() == old(self).main_made(),
            final(self).aux_made() == old(self).aux_made(),
            anew == (bitrate != old(self).made_for().bitrate),
            !anew ==> final(self).made_for() == old(self).made_for(),
            anew ==> final(self).made_for() == (EncoderSettings {
                bitrate,
                framerate: if old(self).made_for().framerate == 0 {
                    1
                } else {
                    old(self).made_for().framerate
                },
                ..old(self).made_for()
            }),
    {
        let framerate: u32 = self.settings.framerate;
        self.set_rate(bitrate, framerate)
    }

    /// Encoders made anew for the settings. The fresh keyframe also carries
    /// the parameter sets in-band.
    pub fn replace(&mut self, main: H264Encoder, aux: Option<H264Encoder>)
        ensures
            final(self).dual() == (aux is Some),
            final(self).made_for() == old(self).made_for(),
            final(self).count() == old(self).count(),
            final(self).main_asked() == asked(main),
            final(self).main_made() == made(main),
            aux matches Some(a) ==> final(self).aux_asked() == asked(a) && final(self).aux_made() == made(a),
    {
        self.main = main;
        self.aux = aux;
    }

    /// Encode packed BGRA pixels of exactly the settings' size, tightly
    /// packed: each stream is asked for its frame, at the time of the count
    /// of frames before it, and for a keyframe where one is forced. The
    /// auxiliary stream goes second, and is not asked for its frame where the
    /// main one failed. The units that they make are returned; it fails where
    /// one of them makes none. Which units those are is left unsaid.
    pub fn encode_bgra(&mut self, bgra: &[u8], force: bool) -> (res: Result<EncodedFrame, CodecError>)
        requires
            encodable(old(self).made_for()),
            bgra@.len() >= old(self).made_for().width * old(self).made_for().height * 4,
            old(self).count() * 1000 <= i64::MAX,
        ensures
            final(self).dual() == old(self).dual(),
            final(self).made_for() == old(self).made_for(),
            final(self).count() == old(self).count() + 1,
            match res {
                Ok(f) => {
                    &&& f.aux is Some == old(self).dual()
                    &&& final(self).main_made().len() == old(self).main_made().len() + 1
                    &&& final(self).main_made().drop_last() == old(self).main_made()
                    &&& f.main@ == final(self).main_made().last().bytes
                    &&& f.keyframe == is_intra(final(self).main_made().last().kind)
                    &&& f.aux matches Some(aux) ==> {
                        &&& final(self).aux_made().len() == old(self).aux_made().len() + 1
                        &&& final(self).aux_made().drop_last() == old(self).aux_made()
                        &&& aux@ == final(self).aux_made().last().bytes
                    }
                },
                Err(e) => e is Codec && final(self).aux_made() == old(self).aux_made() && (final(self).main_made()
                    == old(self).main_made() || (old(self).dual() && final(self).main_made().len() == old(
                    self,
                ).main_made().len() + 1)),
            },
            ({
                let s = old(self).made_for();
                let ms = time_of(s, old(self).count());
                exists|m: I420, a: Option<I420>|
                    {
                        &&& #[trigger] carried(bgra@, s.width as int, s.height as int, m, a)
                        &&& a is Some == old(self).dual()
                        &&& final(self).main_asked() == asked_for(old(self).main_asked(), force, m, ms)
                        &&& match (res, a) {
                            (Ok(_), Some(f)) => final(self).aux_asked() == asked_for(
                                old(self).aux_asked(),
                                force,
                                f,
                                ms,
                            ),
                            (Err(_), Some(f)) => final(self).aux_asked() == asked_for(
                                old(self).aux_asked(),
                                force,
                                f,
                                ms,
                            ) || final(self).aux_asked() == forced(old(self).aux_asked(), force),
                            (_, None) => true,
                        }
                    }
            }),
    {
        let w: usize = self.settings.width as usize;
        let h: usize = self.settings.height as usize;
        let (main, aux): (I420, Option<I420>) = stream_frames(bgra, w, h, self.aux.is_some());
        let ms: u64 = self.settings.timestamp_ms(self.frames);
        proof {
            let rate: int = if self.settings.framerate == 0 {
                1
            } else {
                self.settings.framerate as int
            };
            assert(ms <= self.frames * 1000) by (nonlinear_arith)
                requires
                    ms == self.frames * 1000 / rate,
                    rate >= 1,
            ;
        }
        self.frames = self.frames + 1;
        if force {
            force_keyframe(&mut self.main);
            if let Some(e) = &mut self.aux {
                force_keyframe(e);
            }
        }
        proof {
            assert(carried(bgra@, w as int, h as int, main, aux));
        }
        let (bytes, kind): (Vec<u8>, FrameKind) = match encode_unit(&mut self.main, &main, rows(&main), ms) {
            Ok(unit) => unit,
            Err(e) => return Err(CodecError::Codec(e)),
        };
        let second: Option<Vec<u8>> = match (&mut self.aux, &aux) {
            (Some(e), Some(f)) => match encode_unit(e, f, rows(f), ms) {
                Ok((bytes, _)) => Some(bytes),
                Err(e) => return Err(CodecError::Codec(e)),
            },
            _ => None,
        };
        Ok(EncodedFrame { main: bytes, aux: second, keyframe: is_keyframe(kind) })
    }
}

/// Whether this is what the pictures of one access unit pair show.
pub open spec fn is_shown(
    main: Option<Picture>,
    aux: Option<Option<Picture>>,
    res: Result<Option<BgraFrame>, CodecError>,
) -> bool {
    match (main, aux) {
        (None, None) => res matches Ok(None),
        (None, Some(None)) => res matches Ok(None),
        (Some(m), None) => if m.wf() {
            res matches Ok(Some(f)) && shows_one(m, f)
        } else {
            res matches Err(CodecError::Picture)
        },
        (Some(m), Some(Some(a))) => if !m.wf() || !a.wf() {
            res matches Err(CodecError::Picture)
        } else if even(m.width) != even(a.width) || even(m.height) != even(a.height) {
            res matches Err(CodecError::SizesDiffer)
        } else {
            res matches Ok(Some(f)) && shows_both(m, a, f)
        },
        _ => res matches Err(CodecError::OutOfStep),
    }
}

/// What the pictures of one access unit pair show: nothing where there are
/// none. Both streams are fed every unit so that the pair stays in step.
pub fn shown(main: Option<Picture>, aux: Option<Option<Picture>>) -> (res: Result<Option<BgraFrame>, CodecError>)
    ensures
        is_shown(main, aux, res),
{
    match (main, aux) {
        (None, None) => Ok(None),
        (None, Some(None)) => Ok(None),
        (Some(m), None) => {
            if !m.is_sound() {
                return Err(CodecError::Picture);
            }
            Ok(Some(decoded_to_bgra(&m)))
        },
        (Some(m), Some(Some(a))) => {
            if !m.is_sound() || !a.is_sound() {
                return Err(CodecError::Picture);
            }
            match recombine_to_bgra(&m, &a) {
                Ok(f) => Ok(Some(f)),
                Err(_) => Err(CodecError::SizesDiffer),
            }
        },
        _ => Err(CodecError::OutOfStep),
    }
}

/// Whether this is what the pictures that decoders were drained of show:
/// nothing unless each stream gave one.
pub open spec fn is_drained(
    main: Option<Picture>,
    aux: Option<Option<Picture>>,
    res: Result<Option<BgraFrame>, CodecError>,
) -> bool {
    if main is Some && !(aux matches Some(None)) {
        is_shown(main, aux, res)
    } else {
        res matches Ok(None)
    }
}

/// What the pictures that decoders were drained of show.
pub fn drained(main: Option<Picture>, aux: Option<Option<Picture>>) -> (res: Result<Option<BgraFrame>, CodecError>)
    ensures
        is_drained(main, aux, res),
{
    match (main, aux) {
        (Some(m), None) => shown(Some(m), None),
        (Some(m), Some(Some(a))) => shown(Some(m), Some(Some(a))),
        _ => Ok(None),
    }
}

fn picture_of(image: &Option<Image>) -> (p: Option<Picture<'_>>)
    ensures
        picture_view(p) == image_view(*image),
{
    match image {
        Some(i) => Some(i.picture()),
        None => None,
    }
}

/// Whether a frame has the pixels its size calls for.
pub open spec fn whole(f: BgraFrame) -> bool {
    f.pixels@.len() == f.height * (4 * f.width) && f.width % 2 == 0 && f.height % 2 == 0 && f.width > 0
}

/// Client side: one decoder per stream.
pub struct Decoder {
    main: H264Decoder,
    aux: Option<H264Decoder>,
    held: Held,
}

impl Decoder {
    pub closed spec fn dual(&self) -> bool {
        self.aux is Some
    }

    /// Access units fed minus pictures returned.
    pub closed spec fn pending(&self) -> u32 {
        self.held.pictures
    }

    /// The units that the main stream's decoder was fed.
    pub closed spec fn main_fed(&self) -> Seq<Seq<u8>> {
        fed(self.main)
    }

    /// The units that the auxiliary stream's decoder was fed, if there is one.
    pub closed spec fn aux_fed(&self) -> Seq<Seq<u8>> {
        match self.aux {
            Some(d) => fed(d),
            None => Seq::empty(),
        }
    }

    /// Whether no stream's decoder flushes after a unit.
    pub closed spec fn never_flushes(&self) -> bool {
        &&& flushing(self.main) == Flushing::Never
        &&& self.aux matches Some(d) ==> flushing(d) == Flushing::Never
    }

    /// What the main stream's decoder gave.
    pub closed spec fn main_gave(&self) -> Seq<Option<PictureView>> {
        gave(self.main)
    }

    /// What the auxiliary stream's decoder gave, if there is one.
    pub closed spec fn aux_gave(&self) -> Seq<Option<PictureView>> {
        match self.aux {
            Some(d) => gave(d),
            None => Seq::empty(),
        }
    }

    /// Whether these pictures are what the streams' decoders gave last.
    pub open spec fn gave_last(self, main: Option<Picture>, aux: Option<Option<Picture>>) -> bool {
        &&& picture_view(main) == self.main_gave().last()
        &&& aux is Some == self.dual()
        &&& aux matches Some(a) ==> picture_view(a) == self.aux_gave().last()
    }

    /// Whether this is what the pictures given last show.
    pub open spec fn shows_last(self, res: Result<Option<BgraFrame>, CodecError>) -> bool {
        exists|m: Option<Picture>, a: Option<Option<Picture>>| #[trigger] self.gave_last(m, a) && is_shown(m, a, res)
    }

    /// Whether this is what the pictures drained last show.
    pub open spec fn drains_last(self, res: Result<Option<BgraFrame>, CodecError>) -> bool {
        exists|m: Option<Picture>, a: Option<Option<Picture>>| #[trigger] self.gave_last(m, a) && is_drained(m, a, res)
    }

    /// Whether each decoder gave one more thing than before.
    pub open spec fn gave_more(self, before: Decoder) -> bool {
        &&& self.main_gave().len() == before.main_gave().len() + 1
        &&& self.main_gave().drop_last() == before.main_gave()
        &&& self.dual() ==> self.aux_gave().len() == before.aux_gave().len() + 1 && self.aux_gave().drop_last()
            == before.aux_gave()
    }

    /// Whether a decoder gave no more than before, and neither gave more than
    /// one thing.
    pub open spec fn failed_since(self, before: Decoder) -> bool {
        &&& self.main_gave() == before.main_gave() || (self.dual() && self.aux_gave() == before.aux_gave())
        &&& at_most_one_more(self.main_gave(), before.main_gave())
        &&& at_most_one_more(self.aux_gave(), before.aux_gave())
    }

    /// A decoder of one stream or of two. Neither flushes after a unit: a
    /// flush ejects pictures, which breaks the reference chain of a low-delay
    /// stream.
    pub fn new(dual: bool) -> (res: Result<Decoder, CodecError>)
        ensures
            match res {
                Ok(d) => {
                    &&& d.never_flushes()
                    &&& d.dual() == dual
                    &&& d.pending() == 0
                    &&& d.main_fed() == Seq::<Seq<u8>>::empty()
                    &&& d.aux_fed() == Seq::<Seq<u8>>::empty()
                    &&& d.main_gave() == Seq::<Option<PictureView>>::empty()
                    &&& d.aux_gave() == Seq::<Option<PictureView>>::empty()
                },
                Err(e) => e is Codec,
            },
    {
        let main: H264Decoder = match new_decoder(Flushing::Never) {
            Ok(d) => d,
            Err(e) => return Err(CodecError::Codec(e)),
        };
        if !dual {
            return Ok(Decoder { main, aux: None, held: Held::new() });
        }
        match new_decoder(Flushing::Never) {
            Ok(d) => Ok(Decoder { main, aux: Some(d), held: Held::new() }),
            Err(e) => Err(CodecError::Codec(e)),
        }
    }

    /// True when the decoders hold a picture that only a further access unit
    /// or [`Decoder::flush`] will release.
    pub fn has_pending(&self) -> (yes: bool)
        ensures
            yes == (self.pending() > 0),
    {
        self.held.has_pending()
    }

    /// Whether another access unit can be counted.
    pub fn has_room(&self) -> (yes: bool)
        ensures
            yes == (self.pending() < u32::MAX),
    {
        self.held.pictures < u32::MAX
    }

    /// Decode one access unit pair and recombine what the decoders give to a
    /// BGRA frame, by [`shown`]. `None` when no picture is ready yet: a stream
    /// without reordering hints (hardware encoders emit no VUI) comes out one
    /// access unit late. Both decoders are fed every unit so the pair stays in
    /// step. Which pictures the codec gives is left unsaid.
    pub fn decode(&mut self, main: &[u8], aux: &[u8]) -> (res: Result<Option<BgraFrame>, CodecError>)
        requires
            old(self).pending() < u32::MAX,
            main@.len() <= i32::MAX,
            aux@.len() <= i32::MAX,
        ensures
            final(self).dual() == old(self).dual(),
            final(self).never_flushes() == old(self).never_flushes(),
            final(self).pending() == if res matches Ok(Some(_)) {
                old(self).pending() as int
            } else {
                old(self).pending() + 1
            },
            res matches Ok(Some(f)) ==> whole(f),
            final(self).main_fed() == old(self).main_fed().push(main@),
            old(self).dual() ==> final(self).aux_fed() == old(self).aux_fed().push(aux@),
            match res {
                Err(CodecError::Codec(_)) => final(self).failed_since(*old(self)),
                _ => final(self).gave_more(*old(self)) && final(self).shows_last(res),
            },
    {
        self.held.feed();
        let led: Result<Option<Image>, H264Error> = decode_unit(&mut self.main, main);
        let paired: Option<Result<Option<Image>, H264Error>> = match &mut self.aux {
            Some(d) => Some(decode_unit(d, aux)),
            None => None,
        };
        proof {
            assert(self.main_gave() =~= old(self).main_gave() || self.main_gave().drop_last() =~= old(self).main_gave());
            assert(self.aux_gave() =~= old(self).aux_gave() || self.aux_gave().drop_last() =~= old(self).aux_gave());
        }
        let first: Option<Image> = match led {
            Ok(i) => i,
            Err(e) => return Err(CodecError::Codec(e)),
        };
        let second: Option<Option<Image>> = match paired {
            Some(Ok(i)) => Some(i),
            Some(Err(e)) => return Err(CodecError::Codec(e)),
            None => None,
        };
        let pair: Option<Option<Picture>> = match &second {
            Some(i) => Some(picture_of(i)),
            None => None,
        };
        let lead: Option<Picture> = picture_of(&first);
        let ghost (m, a) = (lead, pair);
        let res: Result<Option<BgraFrame>, CodecError> = shown(lead, pair);
        if let Ok(Some(_)) = &res {
            self.held.decoded(true, None);
        }
        proof {
            assert(self.main_gave().drop_last() =~= old(self).main_gave());
            assert(self.dual() ==> self.aux_gave().drop_last() =~= old(self).aux_gave());
            assert(self.gave_last(m, a));
        }
        res
    }

    /// Drain the picture still buffered in the decoders: for the last access
    /// unit of a run, or to put the newest picture on screen when the stream
    /// goes quiet. Decoding continues cleanly afterwards.
    pub fn flush(&mut self) -> (res: Result<Option<BgraFrame>, CodecError>)
        ensures
            final(self).dual() == old(self).dual(),
            final(self).never_flushes() == old(self).never_flushes(),
            final(self).main_fed() == old(self).main_fed(),
            final(self).aux_fed() == old(self).aux_fed(),
            match res {
                Ok(Some(f)) => whole(f) && final(self).pending() == if old(self).pending() > 0 {
                    old(self).pending() - 1
                } else {
                    0
                },
                Ok(None) => final(self).pending() == 0,
                Err(_) => final(self).pending() == old(self).pending(),
            },
            match res {
                Err(CodecError::Codec(_)) => final(self).failed_since(*old(self)),
                _ => final(self).gave_more(*old(self)) && final(self).drains_last(res),
            },
    {
        let first: Option<Image> = match flush_unit(&mut self.main) {
            Ok(i) => i,
            Err(e) => return Err(CodecError::Codec(e)),
        };
        proof {
            assert(self.main_gave().drop_last() =~= old(self).main_gave());
        }
        let second: Option<Option<Image>> = match &mut self.aux {
            Some(d) => match flush_unit(d) {
                Ok(i) => Some(i),
                Err(e) => return Err(CodecError::Codec(e)),
            },
            None => None,
        };
        let pair: Option<Option<Picture>> = match &second {
            Some(i) => Some(picture_of(i)),
            None => None,
        };
        let lead: Option<Picture> = picture_of(&first);
        let ghost (m, a) = (lead, pair);
        let res: Result<Option<BgraFrame>, CodecError> = drained(lead, pair);
        match &res {
            Ok(Some(_)) => {
                self.held.drained(true, None);
            },
            Ok(None) => {
                self.held.drained(false, None);
            },
            Err(_) => {},
        }
        proof {
            assert(self.dual() ==> self.aux_gave().drop_last() =~= old(self).aux_gave());
            assert(self.gave_last(m, a));
        }
        res
    }
}

/// The main frame of a pair is the frame that a client gets that takes one
/// stream alone.
pub proof fn law_the_main_stream_stands_alone(bgra: Seq<u8>, w: int, h: int, one: I420, main: I420, aux: I420)
    requires
        is_i420_of(bgra, w, h, one),
        is_pair_of(bgra, w, h, main, aux),
    ensures
        one.width == main.width && one.height == main.height,
        one.y@ == main.y@,
        one.u@ == main.u@,
        one.v@ == main.v@,
{
    let yuv = choose|yuv: Yuv444| #[trigger] is_yuv444_of(bgra, w, h, yuv) && is_split(yuv, main, aux);
    let half = w / 2;
    assert forall|row: int, x: int| 0 <= row < h && 0 <= x < w implies at(one.y@, w, row, x) == at(
        main.y@,
        w,
        row,
        x,
    ) by {
        assert(at(yuv.y@, w, row, x) == pixel_luma(bgra, w * 4, row, x));
    }
    assert forall|row: int, x: int| 0 <= row < h / 2 && 0 <= x < half implies #[trigger] at(one.u@, half, row, x) == at(
        main.u@,
        half,
        row,
        x,
    ) by {
        assert(at(yuv.u@, w, 2 * row, 2 * x) == pixel_cb(bgra, w * 4, 2 * row, 2 * x));
    }
    assert forall|row: int, x: int| 0 <= row < h / 2 && 0 <= x < half implies #[trigger] at(one.v@, half, row, x) == at(
        main.v@,
        half,
        row,
        x,
    ) by {
        assert(at(yuv.v@, w, 2 * row, 2 * x) == pixel_cr(bgra, w * 4, 2 * row, 2 * x));
    }
    lemma_planes_equal(one.y@, main.y@, w, h);
    lemma_planes_equal(one.u@, main.u@, half, h / 2);
    lemma_planes_equal(one.v@, main.v@, half, h / 2);
}

/// A frame's luma follows its pixels one by one: blue, green and red of each
/// stand in the first three of its four bytes.
pub proof fn law_luma_follows_the_pixels(bgra: Seq<u8>, w: int, h: int, f: I420, i: int)
    requires
        is_i420_of(bgra, w, h, f),
        0 <= i < w * h,
    ensures
        f.y@[i] == luma_of(bgra[4 * i], bgra[4 * i + 1], bgra[4 * i + 2]),
{
    let (row, x) = (i / w, i % w);
    assert(0 <= row < h && 0 <= x < w && i == row * w + x && row * (w * 4) + 4 * x == 4 * i) by (nonlinear_arith)
        requires
            w > 0,
            0 <= i < w * h,
            row == i / w,
            x == i % w,
    ;
    assert(at(f.y@, w, row, x) == pixel_luma(bgra, w * 4, row, x));
}

/// The time of a frame is that of so many frames at the frame rate, in whole
/// milliseconds.
pub proof fn law_times_follow_the_frames(s: EncoderSettings, frames: u64)
    requires
        s.framerate > 0,
    ensures
        time_of(s, frames) * s.framerate <= 1000 * frames < (time_of(s, frames) + 1) * s.framerate,
{
    let (a, b) = (frames * 1000, s.framerate as int);
    assert(a / b * b <= a < (a / b + 1) * b) by (nonlinear_arith)
        requires
            b > 0,
    ;
}

/// An encoder is asked for one frame, with its planes as they are, and for a
/// keyframe just before it where one is forced.
pub proof fn law_frames_are_asked_for(before: Seq<Asked>, force: bool, f: I420, ms: int)
    ensures
        ({
            let after = asked_for(before, force, f, ms);
            &&& after.len() == before.len() + (if force {
                2int
            } else {
                1
            })
            &&& after.take(before.len() as int) == before
            &&& force ==> after[before.len() as int] == Asked::Keyframe
            &&& after.last() == (Asked::Frame {
                y: f.y@,
                u: f.u@,
                v: f.v@,
                width: f.width as int,
                height: f.height as int,
                ms,
            })
        }),
{
    assert(asked_for(before, force, f, ms).take(before.len() as int) =~= before);
}

/// Pictures of both streams are shown together: one without the other is out
/// of step, neither is nothing to show, and a frame comes only of pictures.
pub proof fn law_streams_are_shown_in_step(
    main: Option<Picture>,
    aux: Option<Option<Picture>>,
    res: Result<Option<BgraFrame>, CodecError>,
)
    requires
        is_shown(main, aux, res),
    ensures
        aux matches Some(a) ==> ((main is Some) != (a is Some) <==> res matches Err(CodecError::OutOfStep)),
        aux is None ==> !(res matches Err(CodecError::OutOfStep)) && !(res matches Err(CodecError::SizesDiffer)),
        main is None && !(res matches Err(CodecError::OutOfStep)) ==> res matches Ok(None),
        res matches Ok(None) ==> main is None,
        !(res matches Err(CodecError::Codec(_))),
        (res is Ok && main is Some) ==> {
            &&& res matches Ok(Some(f))
            &&& f.width == even(main->0.width) && f.height == even(main->0.height)
            &&& f.pixels@.len() == 4 * f.height * f.width
        },
{
    if res is Ok && main is Some {
        let f = res->Ok_0->0;
        assert(f.height * (4 * f.width) == 4 * f.height * f.width) by (nonlinear_arith);
    }
}

/// A frame that starts anew is one of the two kinds coded by itself.
pub proof fn law_keyframes_are_coded_by_themselves(kind: FrameKind)
    ensures
        is_intra(kind) <==> kind == FrameKind::Idr || kind == FrameKind::I,
{
}

/// What can be encoded is even and at most 3840 by 2160.
pub proof fn law_what_can_be_encoded(s: EncoderSettings)
    ensures
        encodable(s) <==> 2 <= s.width <= 3840 && 2 <= s.height <= 2160 && s.width % 2 == 0 && s.height % 2 == 0,
{
}

/// What is left in the decoders is shown where both have it; where either has
/// nothing, there is nothing more.
pub proof fn law_what_is_left_is_shown(
    main: Option<Picture>,
    aux: Option<Option<Picture>>,
    res: Result<Option<BgraFrame>, CodecError>,
)
    requires
        is_drained(main, aux, res),
    ensures
        main is None ==> res matches Ok(None),
        aux == Some(None::<Picture>) ==> res matches Ok(None),
        main is Some && (aux is None || aux->0 is Some) ==> is_shown(main, aux, res),
        !(res matches Err(CodecError::OutOfStep)),
{
}

} // verus!
