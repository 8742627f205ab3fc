use gliff::convert::frame::{bgra_to_i420, bgra_to_yuv444, row_bgra, row_uv, row_y, I420, Yuv444};
use gliff::convert::pixel::{blue, chroma_blue, chroma_red, green, luma, red};
use gliff::convert::split::{recombine_yuv444, split_yuv444};
use gliff::convert::unpack::{i420_to_bgra, yuv444_to_bgra};

struct Rng(u32);

impl Rng {
    fn next(&mut self) -> u8 {
        self.0 ^= self.0 << 13;
        self.0 ^= self.0 >> 17;
        self.0 ^= self.0 << 5;
        (self.0 >> 8) as u8
    }
    fn bytes(&mut self, n: usize) -> Vec<u8> {
        (0..n).map(|_| self.next()).collect()
    }
}

const SIZES: [(usize, usize); 7] = [(2, 2), (6, 4), (16, 2), (34, 6), (66, 4), (100, 2), (640, 4)];

fn max_diff(a: &[u8], b: &[u8]) -> u8 {
    assert_eq!(a.len(), b.len());
    a.iter().zip(b).map(|(x, y)| x.abs_diff(*y)).max().unwrap_or(0)
}

/// BT.709 in limited range, in floating point.
fn to_ycc(b: u8, g: u8, r: u8) -> (u8, u8, u8) {
    let (r, g, b) = (r as f64, g as f64, b as f64);
    let y = 0.2126 * r + 0.7152 * g + 0.0722 * b;
    let cb = (b - y) / 1.8556;
    let cr = (r - y) / 1.5748;
    let round = |v: f64| v.round().clamp(0.0, 255.0) as u8;
    (
        round(16.0 + y * 219.0 / 255.0),
        round(128.0 + cb * 224.0 / 255.0),
        round(128.0 + cr * 224.0 / 255.0),
    )
}

fn to_bgr(y: u8, cb: u8, cr: u8) -> (u8, u8, u8) {
    let y = (y as f64 - 16.0) * 255.0 / 219.0;
    let cb = (cb as f64 - 128.0) * 255.0 / 224.0;
    let cr = (cr as f64 - 128.0) * 255.0 / 224.0;
    let r = y + 1.5748 * cr;
    let b = y + 1.8556 * cb;
    let g = (y - 0.2126 * r - 0.0722 * b) / 0.7152;
    let round = |v: f64| v.round().clamp(0.0, 255.0) as u8;
    (round(b), round(g), round(r))
}

fn reference_yuv444(bgra: &[u8], w: usize, h: usize) -> Yuv444 {
    let mut out = Yuv444::new(w, h);
    for (i, p) in bgra.chunks_exact(4).enumerate() {
        (out.y[i], out.u[i], out.v[i]) = to_ycc(p[0], p[1], p[2]);
    }
    out
}

fn reference_bgra(src: &Yuv444) -> Vec<u8> {
    let mut out = Vec::new();
    for i in 0..src.width * src.height {
        let (b, g, r) = to_bgr(src.y[i], src.u[i], src.v[i]);
        out.extend_from_slice(&[b, g, r, 255]);
    }
    out
}

/// 4:2:0 by the first sample of each 2x2 block.
fn subsampled(src: &Yuv444) -> I420 {
    let (w, h) = (src.width, src.height);
    let mut out = I420::new(w, h);
    out.y.copy_from_slice(&src.y);
    for row in 0..h / 2 {
        for x in 0..w / 2 {
            out.u[row * (w / 2) + x] = src.u[2 * row * w + 2 * x];
            out.v[row * (w / 2) + x] = src.v[2 * row * w + 2 * x];
        }
    }
    out
}

#[test]
fn bgra_to_i420_matches_the_reference_within_one() {
    let mut rng = Rng(7);
    for (w, h) in SIZES {
        let bgra = rng.bytes(w * h * 4);
        let got = bgra_to_i420(&bgra, w * 4, w, h);
        let want = subsampled(&reference_yuv444(&bgra, w, h));
        assert!(max_diff(&got.y, &want.y) <= 1, "luma at {w}x{h}");
        assert!(max_diff(&got.u, &want.u) <= 1, "U at {w}x{h}");
        assert!(max_diff(&got.v, &want.v) <= 1, "V at {w}x{h}");
    }
}

#[test]
fn bgra_to_yuv444_matches_the_reference_within_one() {
    let mut rng = Rng(11);
    for (w, h) in SIZES {
        let bgra = rng.bytes(w * h * 4);
        let got = bgra_to_yuv444(&bgra, w * 4, w, h);
        let want = reference_yuv444(&bgra, w, h);
        assert!(max_diff(&got.y, &want.y) <= 1, "luma at {w}x{h}");
        assert!(max_diff(&got.u, &want.u) <= 1, "U at {w}x{h}");
        assert!(max_diff(&got.v, &want.v) <= 1, "V at {w}x{h}");
    }
}

fn random_yuv444(rng: &mut Rng, w: usize, h: usize) -> Yuv444 {
    let mut src = Yuv444::new(w, h);
    src.y = rng.bytes(w * h);
    src.u = rng.bytes(w * h);
    src.v = rng.bytes(w * h);
    src
}

#[test]
fn split_matches_the_reference_layout() {
    let mut rng = Rng(13);
    for (w, h) in SIZES {
        let src = random_yuv444(&mut rng, w, h);
        let (main, aux) = split_yuv444(&src);
        assert_eq!(main, subsampled(&src), "main at {w}x{h}");
        // Odd rows whole in the luma, U above V; the odd samples of even rows
        // in the chroma.
        let mut want = I420::new(w, h);
        for row in 0..h / 2 {
            for x in 0..w {
                want.y[row * w + x] = src.u[(2 * row + 1) * w + x];
                want.y[(h / 2 + row) * w + x] = src.v[(2 * row + 1) * w + x];
            }
            for x in 0..w / 2 {
                want.u[row * (w / 2) + x] = src.u[2 * row * w + 2 * x + 1];
                want.v[row * (w / 2) + x] = src.v[2 * row * w + 2 * x + 1];
            }
        }
        assert_eq!(aux, want, "aux at {w}x{h}");
    }
}

#[test]
fn i420_to_bgra_matches_the_reference_within_one() {
    let mut rng = Rng(17);
    for (w, h) in SIZES {
        let (sy, sc) = (w + 6, w / 2 + 2);
        let y = rng.bytes(sy * h);
        let u = rng.bytes(sc * h / 2);
        let v = rng.bytes(sc * h / 2);
        let got = i420_to_bgra(&y, &u, &v, (sy, sc, sc), w, h);
        let mut full = Yuv444::new(w, h);
        for row in 0..h {
            for x in 0..w {
                full.y[row * w + x] = y[row * sy + x];
                full.u[row * w + x] = u[row / 2 * sc + x / 2];
                full.v[row * w + x] = v[row / 2 * sc + x / 2];
            }
        }
        assert!(max_diff(&got, &reference_bgra(&full)) <= 1, "at {w}x{h}");
    }
}

#[test]
fn yuv444_to_bgra_matches_the_reference_within_one() {
    let mut rng = Rng(19);
    for (w, h) in SIZES {
        let src = random_yuv444(&mut rng, w, h);
        assert!(max_diff(&yuv444_to_bgra(&src), &reference_bgra(&src)) <= 1, "at {w}x{h}");
    }
}

#[test]
fn a_split_frame_is_recombined() {
    let mut rng = Rng(29);
    for (w, h) in SIZES {
        let src = random_yuv444(&mut rng, w, h);
        let (main, aux) = split_yuv444(&src);
        assert_eq!(recombine_yuv444(&main, &aux), src, "at {w}x{h}");
    }
}

#[test]
fn grey_stays_grey() {
    for v in 0..=255u8 {
        assert_eq!((chroma_blue(v, v, v), chroma_red(v, v, v)), (128, 128));
        let y = luma(v, v, v);
        assert!((16..=235).contains(&y));
        assert!(red(y, 128) == green(y, 128, 128) && green(y, 128, 128) == blue(y, 128));
        assert!(red(y, 128).abs_diff(v) <= 1);
    }
    assert_eq!((luma(0, 0, 0), luma(255, 255, 255)), (16, 235));
    assert_eq!((red(16, 128), red(235, 128)), (0, 255));
}

#[test]
fn rows_are_the_rows_of_frames() {
    let mut rng = Rng(31);
    let bgra = rng.bytes(2 * 16 * 4);
    let full = bgra_to_yuv444(&bgra, 64, 16, 2);
    assert_eq!(row_y(&bgra[..64], 16), full.y[..16]);
    let (u, v) = row_uv(&bgra[..64], 16, 1);
    assert_eq!((&u[..], &v[..]), (&full.u[..16], &full.v[..16]));
    let (u, v) = row_uv(&bgra[..64], 8, 2);
    let small = bgra_to_i420(&bgra, 64, 16, 2);
    assert_eq!((&u[..], &v[..]), (&small.u[..], &small.v[..]));
    assert_eq!(row_bgra(&full.y[..16], &full.u[..16], &full.v[..16], false), yuv444_to_bgra(&full)[..64]);
}
