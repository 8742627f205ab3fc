//! The CPU video pipeline around its codec: which pipeline to use, what sizes
//! it takes, how many pictures the decoders hold, and pictures to pixels.

use crate::convert::frame::{push_row, I420};
use crate::convert::pixel::{blue_of, green_of, red_of};
use crate::convert::plane::{at, lemma_cell, lemma_no_rows, lemma_rows_fit};
use crate::convert::split::{is_recombined, recombine_yuv444};
use crate::convert::unpack::{holds_rows, i420_to_bgra, pixel_at, yuv444_to_bgra};
use crate::text::text_eq;
use vstd::prelude::*;
use vstd::slice::{slice_subrange, slice_to_vec};

verus! {

/// Which video pipeline to use, from `--video` or `GLIFF_VIDEO`.
#[derive(Debug, Clone, Copy, PartialEq, Eq, Structural)]
pub enum VideoMode {
    /// Vulkan Video, falling back to the CPU when unavailable (the default).
    Gpu,
    /// Force the CPU pipeline even on a machine with a capable GPU.
    Cpu,
}

/// The pipeline a word names, if it names one.
pub open spec fn mode_named(s: Seq<char>) -> Option<VideoMode> {
    if s == "gpu"@ {
        Some(VideoMode::Gpu)
    } else if s == "cpu"@ {
        Some(VideoMode::Cpu)
    } else {
        None
    }
}

/// The pipeline an optional word names.
pub open spec fn mode_of(s: Option<&str>) -> Option<VideoMode> {
    match s {
        Some(word) => mode_named(word@),
        None => None,
    }
}

impl VideoMode {
    fn parse(s: &str) -> (mode: Option<Self>)
        ensures
            mode == mode_named(s@),
    {
        proof {
            reveal_strlit("gpu");
            reveal_strlit("cpu");
            assert("gpu"@[0] != "cpu"@[0]);
        }
        if text_eq(s, "gpu") {
            Some(VideoMode::Gpu)
        } else if text_eq(s, "cpu") {
            Some(VideoMode::Cpu)
        } else {
            None
        }
    }

    /// `cpu` or `gpu` from the command line, else from the environment, else
    /// `Gpu`. Any other word is ignored.
    pub fn resolve(cli: Option<&str>, env: Option<&str>) -> (mode: Self)
        ensures
            mode == (match (mode_of(cli), mode_of(env)) {
                (Some(m), _) => m,
                (None, Some(m)) => m,
                (None, None) => VideoMode::Gpu,
            }),
    {
        if let Some(s) = cli {
            if let Some(mode) = Self::parse(s) {
                return mode;
            }
        }
        if let Some(s) = env {
            if let Some(mode) = Self::parse(s) {
                return mode;
            }
        }
        VideoMode::Gpu
    }
}

#[derive(Debug, Clone, Copy, PartialEq, Eq)]
pub struct EncoderSettings {
    pub width: u32,
    pub height: u32,
    /// Target bitrate in bits per second (CBR), per stream.
    pub bitrate: u32,
    pub framerate: u32,
}

/// Why the CPU encoder takes no frames of a size.
#[derive(Debug, Clone, Copy, PartialEq, Eq)]
pub enum SizeError {
    /// Beyond the largest picture the codec encodes.
    TooLarge,
    /// Zero or odd one way: the 4:2:0 chroma split needs even dimensions.
    NotEven,
}

/// The largest width OpenH264 encodes (level 5.2, landscape).
pub const MAX_WIDTH: u32 = 3840;

/// The largest height OpenH264 encodes (level 5.2, landscape).
pub const MAX_HEIGHT: u32 = 2160;

impl EncoderSettings {
    /// Whether the CPU encoder takes frames of this size.
    pub fn check_size(&self) -> (res: Result<(), SizeError>)
        ensures
            res == (if self.width > MAX_WIDTH || self.height > MAX_HEIGHT {
                Err(SizeError::TooLarge)
            } else if self.width == 0 || self.height == 0 || self.width % 2 != 0 || self.height % 2 != 0 {
                Err(SizeError::NotEven)
            } else {
                Ok::<(), SizeError>(())
            }),
    {
        if self.width > MAX_WIDTH || self.height > MAX_HEIGHT {
            return Err(SizeError::TooLarge);
        }
        if self.width == 0 || self.height == 0 || self.width % 2 != 0 || self.height % 2 != 0 {
            return Err(SizeError::NotEven);
        }
        Ok(())
    }

    /// Change the target bitrate and the frame rate it is spread over.
    /// Returns whether anything changed, so that the encoders, which fix
    /// their target when they are made, have to be made again.
    pub fn set_rate(&mut self, bitrate: u32, framerate: u32) -> (changed: bool)
        ensures
            changed == (bitrate != old(self).bitrate || framerate != old(self).framerate),
            !changed ==> *final(self) == *old(self),
            changed ==> *final(self) == (EncoderSettings {
                bitrate,
                framerate: if framerate == 0 {
                    1
                } else {
                    framerate
                },
                ..*old(self)
            }),
    {
        if bitrate == self.bitrate && framerate == self.framerate {
            return false;
        }
        self.bitrate = bitrate;
        self.framerate = if framerate == 0 { 1 } else { framerate };
        true
    }

    /// The time of frame number `frames`, in milliseconds from the first.
    pub fn timestamp_ms(&self, frames: u64) -> (ms: u64)
        requires
            frames * 1000 <= u64::MAX,
        ensures
            ms == frames * 1000 / (if self.framerate == 0 {
                1int
            } else {
                self.framerate as int
            }),
    {
        let rate: u64 = if self.framerate == 0 { 1 } else { self.framerate as u64 };
        frames * 1000 / rate
    }
}

pub struct EncodedFrame {
    pub main: Vec<u8>,
    pub aux: Option<Vec<u8>>,
    pub keyframe: bool,
}

/// Packed BGRA pixels of one decoded frame, `width * 4` bytes per row.
#[derive(Debug)]
pub struct BgraFrame {
    pub width: u32,
    pub height: u32,
    pub pixels: Vec<u8>,
}

/// What became of one access unit in the decoders.
#[derive(Debug, Clone, Copy, PartialEq, Eq, Structural)]
pub enum Decoded {
    /// A picture came out.
    Picture,
    /// No picture is ready yet.
    Nothing,
    /// One of the two streams gave a picture and the other did not.
    OutOfStep,
}

/// Access units fed minus pictures returned: what the decoders still hold.
/// Zero for Baseline streams; one for a High-profile stream, whose newest
/// picture waits for the next unit or for the decoders to be drained.
#[derive(Debug, Clone, Copy, PartialEq, Eq)]
pub struct Held {
    pub pictures: u32,
}

impl Held {
    pub fn new() -> (h: Self)
        ensures
            h.pictures == 0,
    {
        Self { pictures: 0 }
    }

    /// True when the decoders hold a picture that only a further access
    /// unit or draining them will release.
    pub fn has_pending(&self) -> (yes: bool)
        ensures
            yes == (self.pictures > 0),
    {
        self.pictures > 0
    }

    /// An access unit goes to the decoders.
    pub fn feed(&mut self)
        requires
            old(self).pictures < u32::MAX,
        ensures
            final(self).pictures == old(self).pictures + 1,
    {
        self.pictures = self.pictures + 1;
    }

    /// What the decoders gave for it: whether the main one had a picture, and
    /// the auxiliary one where there is one. Both are fed every unit so the
    /// pair stays in step.
    pub fn decoded(&mut self, main: bool, aux: Option<bool>) -> (outcome: Decoded)
        ensures
            outcome == (match aux {
                Some(a) => if main && a {
                    Decoded::Picture
                } else if !main && !a {
                    Decoded::Nothing
                } else {
                    Decoded::OutOfStep
                },
                None => if main {
                    Decoded::Picture
                } else {
                    Decoded::Nothing
                },
            }),
            final(self).pictures == (if outcome == Decoded::Picture && old(self).pictures > 0 {
                old(self).pictures - 1
            } else {
                old(self).pictures as int
            }),
    {
        let outcome = match aux {
            Some(a) => if main && a {
                Decoded::Picture
            } else if !main && !a {
                Decoded::Nothing
            } else {
                Decoded::OutOfStep
            },
            None => if main {
                Decoded::Picture
            } else {
                Decoded::Nothing
            },
        };
        if let Decoded::Picture = outcome {
            self.pictures = self.pictures.saturating_sub(1);
        }
        outcome
    }

    /// The decoders were drained, and each stream gave a picture or not.
    /// Returns whether there is a picture to show. When nothing came out,
    /// nothing is held: any drift the counter picked up from failed decodes
    /// is corrected.
    pub fn drained(&mut self, main: bool, aux: Option<bool>) -> (shown: bool)
        ensures
            shown == (main && aux != Some(false)),
            shown ==> final(self).pictures == (if old(self).pictures > 0 {
                old(self).pictures - 1
            } else {
                0int
            }),
            !shown ==> final(self).pictures == 0,
    {
        let shown: bool = match aux {
            Some(a) => main && a,
            None => main,
        };
        if shown {
            self.pictures = self.pictures.saturating_sub(1);
        } else {
            self.pictures = 0;
        }
        shown
    }
}

/// A decoded picture: planes with strides that may exceed the width.
pub struct Picture<'a> {
    pub y: &'a [u8],
    pub u: &'a [u8],
    pub v: &'a [u8],
    pub strides: (usize, usize, usize),
    pub width: usize,
    pub height: usize,
}

/// A number without its lowest bit.
pub open spec fn even(n: usize) -> usize {
    (n - n % 2) as usize
}

impl<'a> Picture<'a> {
    /// At least one even-sized block wide, with the planes its size calls
    /// for, and small enough to unpack.
    pub open spec fn wf(&self) -> bool {
        let w = even(self.width);
        let h = even(self.height);
        &&& w > 0
        &&& w <= u32::MAX
        &&& h <= u32::MAX
        &&& 4 * w <= usize::MAX
        &&& h * (4 * w) <= usize::MAX
        &&& holds_rows(self.y@, self.strides.0 as int, w as int, h as int)
        &&& holds_rows(self.u@, self.strides.1 as int, (w / 2) as int, (h / 2) as int)
        &&& holds_rows(self.v@, self.strides.2 as int, (w / 2) as int, (h / 2) as int)
    }
}

/// Whether a plane holds `rows` rows of `width` samples, `stride` apart.
fn rows_held(plane: &[u8], stride: usize, width: usize, rows: usize) -> (yes: bool)
    ensures
        yes == holds_rows(plane@, stride as int, width as int, rows as int),
{
    let len: usize = plane.len();
    if rows == 0 {
        return true;
    }
    proof {
        assert((rows - 1) * stride <= usize::MAX * usize::MAX) by (nonlinear_arith)
            requires
                0 <= rows - 1 <= usize::MAX,
                0 <= stride <= usize::MAX,
        ;
        assert(usize::MAX * usize::MAX + usize::MAX <= u128::MAX) by (nonlinear_arith);
    }
    (rows as u128 - 1) * stride as u128 + width as u128 <= len as u128
}

impl<'a> Picture<'a> {
    /// Whether the picture can be shown: see [`Picture::wf`].
    pub fn is_sound(&self) -> (yes: bool)
        ensures
            yes == self.wf(),
    {
        let w: usize = self.width - self.width % 2;
        let h: usize = self.height - self.height % 2;
        if w == 0 || w as u64 > u32::MAX as u64 || h as u64 > u32::MAX as u64 {
            return false;
        }
        proof {
            assert(h * (4 * w) <= u32::MAX * (4 * u32::MAX)) by (nonlinear_arith)
                requires
                    0 <= h <= u32::MAX,
                    0 <= w <= u32::MAX,
            ;
        }
        4 * w as u128 <= usize::MAX as u128 && h as u128 * (4 * w as u128) <= usize::MAX as u128 && rows_held(
            self.y,
            self.strides.0,
            w,
            h,
        ) && rows_held(self.u, self.strides.1, w / 2, h / 2) && rows_held(self.v, self.strides.2, w / 2, h / 2)
    }
}

/// Whether a frame shows a picture, cropped to even dimensions, with its
/// chroma repeated over each 2x2 block.
pub open spec fn shows_one(image: Picture, frame: BgraFrame) -> bool {
    &&& frame.width == even(image.width)
    &&& frame.height == even(image.height)
    &&& frame.pixels@.len() == frame.height * (4 * frame.width)
    &&& forall|row: int, x: int|
        0 <= row < frame.height && 0 <= x < frame.width ==> pixel_at(
            frame.pixels@,
            frame.width as int,
            row,
            x,
            #[trigger] at(image.y@, image.strides.0 as int, row, x),
            at(image.u@, image.strides.1 as int, row / 2, x / 2),
            at(image.v@, image.strides.2 as int, row / 2, x / 2),
        )
}

/// Convert a decoded picture straight to BGRA, cropped to even dimensions,
/// with its chroma repeated over each 2x2 block.
pub fn decoded_to_bgra(image: &Picture) -> (frame: BgraFrame)
    requires
        image.wf(),
    ensures
        shows_one(*image, frame),
{
    let w: usize = image.width - image.width % 2;
    let h: usize = image.height - image.height % 2;
    let pixels: Vec<u8> = i420_to_bgra(image.y, image.u, image.v, image.strides, w, h);
    BgraFrame { width: w as u32, height: h as u32, pixels }
}

/// Whether `frame` is a picture, cropped to even dimensions, without gaps
/// between its rows.
pub open spec fn is_packed(image: Picture, frame: I420) -> bool {
    let w = even(image.width) as int;
    let h = even(image.height) as int;
    &&& frame.wf()
    &&& frame.width == w && frame.height == h
    &&& forall|row: int, x: int|
        0 <= row < h && 0 <= x < w ==> #[trigger] at(frame.y@, w, row, x) == at(
            image.y@,
            image.strides.0 as int,
            row,
            x,
        )
    &&& forall|row: int, x: int|
        0 <= row < h / 2 && 0 <= x < w / 2 ==> #[trigger] at(frame.u@, w / 2, row, x) == at(
            image.u@,
            image.strides.1 as int,
            row,
            x,
        )
    &&& forall|row: int, x: int|
        0 <= row < h / 2 && 0 <= x < w / 2 ==> #[trigger] at(frame.v@, w / 2, row, x) == at(
            image.v@,
            image.strides.2 as int,
            row,
            x,
        )
}

/// The first `width` samples of the first `rows` rows of a plane.
fn packed(plane: &[u8], stride: usize, width: usize, rows: usize) -> (out: Vec<u8>)
    requires
        width > 0,
        holds_rows(plane@, stride as int, width as int, rows as int),
    ensures
        out@.len() == rows * width,
        forall|row: int, x: int|
            0 <= row < rows && 0 <= x < width ==> #[trigger] at(out@, width as int, row, x) == at(
                plane@,
                stride as int,
                row,
                x,
            ),
{
    let mut out: Vec<u8> = Vec::new();
    let len: usize = plane.len();
    proof {
        lemma_no_rows(width as int);
    }
    for row in 0..rows
        invariant
            width > 0,
            len == plane@.len(),
            holds_rows(plane@, stride as int, width as int, rows as int),
            out@.len() == row * width,
            forall|r: int, x: int|
                0 <= r < row && 0 <= x < width ==> #[trigger] at(out@, width as int, r, x) == at(
                    plane@,
                    stride as int,
                    r,
                    x,
                ),
    {
        proof {
            lemma_rows_fit(stride as int, width as int, row as int, rows as int, len as int);
        }
        let start: usize = row * stride;
        let line: Vec<u8> = slice_to_vec(slice_subrange(plane, start, start + width));
        push_row(&mut out, line, Ghost(width as int), Ghost(row as int));
    }
    out
}

/// Copy a decoded picture into a tightly packed frame, cropped to even
/// dimensions.
pub fn decoded_to_i420(image: &Picture) -> (frame: I420)
    requires
        image.wf(),
    ensures
        is_packed(*image, frame),
{
    let w: usize = image.width - image.width % 2;
    let h: usize = image.height - image.height % 2;
    I420 {
        width: w,
        height: h,
        y: packed(image.y, image.strides.0, w, h),
        u: packed(image.u, image.strides.1, w / 2, h / 2),
        v: packed(image.v, image.strides.2, w / 2, h / 2),
    }
}

/// The main and auxiliary pictures have different sizes.
#[derive(Debug, Clone, Copy, PartialEq, Eq)]
pub struct SizesDiffer;

/// Whether a frame shows what a main and an auxiliary picture recombine to.
pub open spec fn shows_both(main: Picture, aux: Picture, frame: BgraFrame) -> bool {
    &&& frame.width == even(main.width)
    &&& frame.height == even(main.height)
    &&& frame.pixels@.len() == frame.height * (4 * frame.width)
    &&& exists|m: I420, a: I420, yuv: crate::convert::frame::Yuv444|
        {
            &&& is_packed(main, m)
            &&& is_packed(aux, a)
            &&& #[trigger] is_recombined(m, a, yuv)
            &&& forall|row: int, x: int|
                0 <= row < frame.height && 0 <= x < frame.width ==> pixel_at(
                    frame.pixels@,
                    frame.width as int,
                    row,
                    x,
                    #[trigger] at(yuv.y@, frame.width as int, row, x),
                    at(yuv.u@, frame.width as int, row, x),
                    at(yuv.v@, frame.width as int, row, x),
                )
        }
}

/// Recombine a main and auxiliary picture into 4:4:4 and convert to BGRA.
pub fn recombine_to_bgra(main: &Picture, aux: &Picture) -> (res: Result<BgraFrame, SizesDiffer>)
    requires
        main.wf(),
        aux.wf(),
    ensures
        res is Err <==> even(aux.width) != even(main.width) || even(aux.height) != even(main.height),
        res matches Ok(frame) ==> shows_both(*main, *aux, frame),
{
    let m: I420 = decoded_to_i420(main);
    let a: I420 = decoded_to_i420(aux);
    if a.width != m.width || a.height != m.height {
        return Err(SizesDiffer);
    }
    let yuv = recombine_yuv444(&m, &a);
    let pixels: Vec<u8> = yuv444_to_bgra(&yuv);
    assert(is_recombined(m, a, yuv));
    Ok(BgraFrame { width: m.width as u32, height: m.height as u32, pixels })
}

/// The two modes go by their names, written in small letters, and by no other.
pub proof fn law_modes_go_by_their_names(s: Seq<char>)
    ensures
        mode_named(s) == Some(VideoMode::Gpu) <==> s == seq!['g', 'p', 'u'],
        mode_named(s) == Some(VideoMode::Cpu) <==> s == seq!['c', 'p', 'u'],
{
    reveal_strlit("gpu");
    reveal_strlit("cpu");
    assert("gpu"@ =~= seq!['g', 'p', 'u']);
    assert("cpu"@ =~= seq!['c', 'p', 'u']);
    assert("gpu"@[0] != "cpu"@[0]);
}

/// Pictures are cut to an even size, by at most one row or column.
pub proof fn law_pictures_are_cut_to_an_even_size(n: usize)
    ensures
        even(n) % 2 == 0,
        even(n) <= n <= even(n) + 1,
{
}

/// A picture that is shown follows its samples, row by row, four bytes a
/// pixel; two by two pixels share their chroma, and all of it is opaque.
pub proof fn law_shown_pictures_follow_their_samples(image: Picture, frame: BgraFrame, row: int, x: int)
    requires
        image.wf(),
        shows_one(image, frame),
        0 <= row < frame.height,
        0 <= x < frame.width,
    ensures
        ({
            let i = 4 * (row * frame.width + x);
            let y = image.y@[row * image.strides.0 + x];
            let cb = image.u@[(row / 2) * image.strides.1 + x / 2];
            let cr = image.v@[(row / 2) * image.strides.2 + x / 2];
            frame.pixels@.subrange(i, i + 4) == seq![blue_of(y, cb), green_of(y, cb, cr), red_of(y, cr), 255u8]
        }),
{
    let i = 4 * (row * frame.width + x);
    assert(row * (4 * frame.width) + 4 * x == i) by (nonlinear_arith)
        requires
            i == 4 * (row * frame.width + x),
    ;
    assert(at(image.y@, image.strides.0 as int, row, x) == image.y@[row * image.strides.0 + x]);
    lemma_cell(frame.width as int, frame.height as int, row, x);
    assert(frame.height * (4 * frame.width) == 4 * (frame.height * frame.width)) by (nonlinear_arith);
    let y = image.y@[row * image.strides.0 + x];
    let cb = image.u@[(row / 2) * image.strides.1 + x / 2];
    let cr = image.v@[(row / 2) * image.strides.2 + x / 2];
    assert(frame.pixels@.subrange(i, i + 4) =~= seq![blue_of(y, cb), green_of(y, cb, cr), red_of(y, cr), 255u8]);
}

} // verus!
