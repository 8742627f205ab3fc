//! Pictures that checks encode and compare.

use vstd::prelude::*;

verus! {

/// The bytes `a`, `b`, `c` of each whole pixel of four.
pub open spec fn picked(bgra: Seq<u8>, a: int, b: int, c: int) -> Seq<u8> {
    Seq::new(
        (bgra.len() / 4 * 3) as nat,
        |k: int|
            bgra[k / 3 * 4 + if k % 3 == 0 {
                a
            } else if k % 3 == 1 {
                b
            } else {
                c
            }],
    )
}

fn pick(bgra: &[u8], a: usize, b: usize, c: usize) -> (out: Vec<u8>)
    requires
        a < 4,
        b < 4,
        c < 4,
    ensures
        out@ == picked(bgra@, a as int, b as int, c as int),
{
    let mut out: Vec<u8> = Vec::new();
    let n: usize = bgra.len() / 4;
    for i in 0..n
        invariant
            n == bgra@.len() / 4,
            bgra@.len() <= usize::MAX,
            a < 4,
            b < 4,
            c < 4,
            out@.len() == i * 3,
            forall|k: int|
                0 <= k < i * 3 ==> #[trigger] out@[k] == picked(bgra@, a as int, b as int, c as int)[k],
    {
        let ghost before = out@;
        let at: usize = i * 4;
        out.push(bgra[at + a]);
        out.push(bgra[at + b]);
        out.push(bgra[at + c]);
        proof {
            let all = picked(bgra@, a as int, b as int, c as int);
            assert forall|k: int| 0 <= k < (i + 1) * 3 implies #[trigger] out@[k] == all[k] by {
                if k < i * 3 {
                    assert(out@[k] == before[k]);
                } else {
                    assert(k / 3 == i);
                    assert(k % 3 == k - i * 3);
                }
            }
        }
    }
    proof {
        assert(out@ =~= picked(bgra@, a as int, b as int, c as int));
    }
    out
}

/// The colour bytes of a BGRA buffer, skipping the alpha/X byte whose captured
/// value is undefined.
pub fn rgb_channels(bgra: &[u8]) -> (out: Vec<u8>)
    ensures
        out@ == picked(bgra@, 0, 1, 2),
{
    pick(bgra, 0, 1, 2)
}

/// The colour bytes in the order that a PNG has them.
pub fn to_rgb(bgra: &[u8]) -> (out: Vec<u8>)
    ensures
        out@ == picked(bgra@, 2, 1, 0),
{
    pick(bgra, 2, 1, 0)
}

/// A pixel of the synthetic frame at time `t`: stripes of blue, green and red
/// that move, and a gradient.
pub open spec fn synthetic_pixel(x: int, y: int, w: int, h: int, t: int) -> (u8, u8, u8) {
    let stripe = (x + t * 3) / 32 % 4;
    if stripe == 0 {
        (255, 0, 0)
    } else if stripe == 1 {
        (0, 255, 0)
    } else if stripe == 2 {
        (0, 0, 255)
    } else {
        ((x * 255 / w) as u8, (y * 255 / h) as u8, 128)
    }
}

/// The bytes of pixel `i`.
pub open spec fn has_pixel(out: Seq<u8>, i: int, p: (u8, u8, u8)) -> bool {
    out[i * 4] == p.0 && out[i * 4 + 1] == p.1 && out[i * 4 + 2] == p.2 && out[i * 4 + 3] == 255
}

/// A share of 255.
fn share(v: usize, of: usize) -> (s: u8)
    requires
        v < of,
        of * 255 <= usize::MAX,
    ensures
        s == v * 255 / (of as int),
{
    proof {
        assert(v * 255 <= of * 255) by (nonlinear_arith)
            requires
                v < of,
        ;
        assert(0 <= v * 255 / (of as int) <= 255) by (nonlinear_arith)
            requires
                0 <= v < of,
        ;
    }
    (v * 255 / of) as u8
}

/// A synthetic BGRA frame with sharp colour edges and motion, the case the
/// 4:4:4 path exists for.
pub fn synthetic_bgra(w: usize, h: usize, t: usize) -> (out: Vec<u8>)
    requires
        w * h * 4 <= usize::MAX,
        w * 255 <= usize::MAX,
        h * 255 <= usize::MAX,
        w + t * 3 <= usize::MAX,
    ensures
        out@.len() == w * h * 4,
        forall|i: int|
            0 <= i < w * h ==> #[trigger] has_pixel(
                out@,
                i,
                synthetic_pixel(i % (w as int), i / (w as int), w as int, h as int, t as int),
            ),
{
    let n: usize = w * h;
    let mut out: Vec<u8> = Vec::new();
    for i in 0..n
        invariant
            n == w * h,
            n * 4 <= usize::MAX,
            w * 255 <= usize::MAX,
            h * 255 <= usize::MAX,
            w + t * 3 <= usize::MAX,
            out@.len() == i * 4,
            forall|k: int|
                0 <= k < i ==> #[trigger] has_pixel(
                    out@,
                    k,
                    synthetic_pixel(k % (w as int), k / (w as int), w as int, h as int, t as int),
                ),
    {
        proof {
            assert(w > 0 && 0 <= (i as int) % (w as int) < w && 0 <= (i as int) / (w as int) < h) by (nonlinear_arith)
                requires
                    0 <= i < w * h,
                    w >= 0,
                    h >= 0,
            ;
        }
        let x: usize = i % w;
        let y: usize = i / w;
        let stripe: usize = (x + t * 3) / 32 % 4;
        let (b, g, r): (u8, u8, u8) = if stripe == 0 {
            (255, 0, 0)
        } else if stripe == 1 {
            (0, 255, 0)
        } else if stripe == 2 {
            (0, 0, 255)
        } else {
            (share(x, w), share(y, h), 128)
        };
        let ghost before = out@;
        out.push(b);
        out.push(g);
        out.push(r);
        out.push(255);
        proof {
            assert forall|k: int| 0 <= k < i + 1 implies #[trigger] has_pixel(
                out@,
                k,
                synthetic_pixel(k % (w as int), k / (w as int), w as int, h as int, t as int),
            ) by {
                if k < i {
                    assert(has_pixel(
                        before,
                        k,
                        synthetic_pixel(k % (w as int), k / (w as int), w as int, h as int, t as int),
                    ));
                    assert(out@[k * 4] == before[k * 4]);
                    assert(out@[k * 4 + 1] == before[k * 4 + 1]);
                    assert(out@[k * 4 + 2] == before[k * 4 + 2]);
                    assert(out@[k * 4 + 3] == before[k * 4 + 3]);
                }
            }
        }
    }
    out
}

/// A pixel of the frame that conversions are timed on.
pub open spec fn bench_pixel(i: int) -> (u8, u8, u8) {
    ((i % 256) as u8, (i / 8 % 256) as u8, (i / 64 % 256) as u8)
}

/// A representative BGRA frame of `n` pixels.
pub fn bench_bgra(n: usize) -> (out: Vec<u8>)
    requires
        n * 4 <= usize::MAX,
    ensures
        out@.len() == n * 4,
        forall|i: int| 0 <= i < n ==> #[trigger] has_pixel(out@, i, bench_pixel(i)),
{
    let mut out: Vec<u8> = Vec::new();
    for i in 0..n
        invariant
            n * 4 <= usize::MAX,
            out@.len() == i * 4,
            forall|k: int| 0 <= k < i ==> #[trigger] has_pixel(out@, k, bench_pixel(k)),
    {
        let ghost before = out@;
        out.push((i % 256) as u8);
        out.push((i / 8 % 256) as u8);
        out.push((i / 64 % 256) as u8);
        out.push(255);
        proof {
            assert forall|k: int| 0 <= k < i + 1 implies #[trigger] has_pixel(out@, k, bench_pixel(k)) by {
                if k < i {
                    assert(has_pixel(before, k, bench_pixel(k)));
                    assert(out@[k * 4] == before[k * 4]);
                    assert(out@[k * 4 + 1] == before[k * 4 + 1]);
                    assert(out@[k * 4 + 2] == before[k * 4 + 2]);
                    assert(out@[k * 4 + 3] == before[k * 4 + 3]);
                }
            }
        }
    }
    out
}

/// A picture without its fourth channel holds each pixel's first three in
/// turn, and as red, green and blue in the opposite order.
pub proof fn law_channels_of_each_pixel(bgra: Seq<u8>, i: int)
    requires
        0 <= 4 * i,
        4 * i + 4 <= bgra.len(),
    ensures
        picked(bgra, 0, 1, 2).len() == bgra.len() / 4 * 3,
        picked(bgra, 0, 1, 2).subrange(3 * i, 3 * i + 3) == bgra.subrange(4 * i, 4 * i + 3),
        picked(bgra, 2, 1, 0).subrange(3 * i, 3 * i + 3) == bgra.subrange(4 * i, 4 * i + 3).reverse(),
{
    let (a, b) = (picked(bgra, 0, 1, 2), picked(bgra, 2, 1, 0));
    assert(3 * i / 3 == i && (3 * i + 1) / 3 == i && (3 * i + 2) / 3 == i);
    assert(a.subrange(3 * i, 3 * i + 3) =~= bgra.subrange(4 * i, 4 * i + 3));
    assert(b.subrange(3 * i, 3 * i + 3) =~= bgra.subrange(4 * i, 4 * i + 3).reverse());
}

} // verus!
