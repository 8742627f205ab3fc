//! The remote cursor.

use vstd::prelude::*;

verus! {

/// The whole pixels of an image, four bytes each.
pub open spec fn pixels(argb: Seq<u8>) -> int {
    argb.len() as int / 4
}

/// The alpha of pixel `i`.
pub open spec fn alpha(argb: Seq<u8>, i: int) -> u8 {
    argb[4 * i + 3]
}

/// Whether pixel `i` is the same as the first.
pub open spec fn like_first(argb: Seq<u8>, i: int) -> bool {
    &&& argb[4 * i] == argb[0]
    &&& argb[4 * i + 1] == argb[1]
    &&& argb[4 * i + 2] == argb[2]
    &&& argb[4 * i + 3] == argb[3]
}

/// An image shows something where a pixel is not transparent, and not all
/// are the same.
pub open spec fn visible(argb: Seq<u8>) -> bool {
    &&& exists|i: int| 0 <= i < pixels(argb) && #[trigger] alpha(argb, i) != 0
    &&& exists|i: int| 0 <= i < pixels(argb) && !#[trigger] like_first(argb, i)
}

/// True if a remote cursor image has a visible shape. The compositor sends
/// fully transparent images (and flat black ones for other outputs) when it
/// has no cursor image to share; those should fall back to the local default.
pub fn has_visible_shape(argb: &[u8]) -> (yes: bool)
    ensures
        yes == visible(argb@),
{
    let len: usize = argb.len();
    let n: usize = len / 4;
    let mut opaque: bool = false;
    let mut uniform: bool = true;
    for i in 0..n
        invariant
            len == argb@.len(),
            n == len / 4,
            n == pixels(argb@),
            opaque == exists|k: int| 0 <= k < i && #[trigger] alpha(argb@, k) != 0,
            uniform == forall|k: int| 0 <= k < i ==> #[trigger] like_first(argb@, k),
    {
        let p: usize = 4 * i;
        proof {
            assert(alpha(argb@, i as int) == argb@[p + 3]);
        }
        if argb[p + 3] != 0 {
            opaque = true;
        }
        let same: bool = argb[p] == argb[0] && argb[p + 1] == argb[1] && argb[p + 2] == argb[2] && argb[p + 3]
            == argb[3];
        proof {
            assert(same == like_first(argb@, i as int));
        }
        if !same {
            uniform = false;
        }
    }
    opaque && !uniform
}

/// The four bytes of a pixel.
pub open spec fn quad(argb: Seq<u8>, i: int) -> Seq<u8> {
    argb.subrange(4 * i, 4 * i + 4)
}

/// A cursor shows where some pixel differs from the first in any of its bytes
/// and some pixel is not clear; a single colour and a clear picture do not.
pub proof fn law_what_makes_a_cursor_show(argb: Seq<u8>)
    ensures
        visible(argb) <==> (exists|i: int| 0 <= i < argb.len() as int / 4 && #[trigger] quad(argb, i) != quad(argb, 0))
            && (exists|i: int| 0 <= i < argb.len() as int / 4 && (#[trigger] quad(argb, i))[3] != 0),
{
    assert forall|i: int| 0 <= i < pixels(argb) implies #[trigger] like_first(argb, i) == (quad(argb, i) == quad(
        argb,
        0,
    )) by {
        let (a, b) = (quad(argb, i), quad(argb, 0));
        assert(a[0] == argb[4 * i] && a[1] == argb[4 * i + 1] && a[2] == argb[4 * i + 2] && a[3] == argb[4 * i + 3]);
        assert(b[0] == argb[0] && b[1] == argb[1] && b[2] == argb[2] && b[3] == argb[3]);
        if like_first(argb, i) {
            assert(a =~= b);
        }
    }
    assert forall|i: int| 0 <= i < pixels(argb) implies #[trigger] alpha(argb, i) == quad(argb, i)[3] by {}
    if visible(argb) {
        let i = choose|i: int| 0 <= i < pixels(argb) && #[trigger] alpha(argb, i) != 0;
        let j = choose|i: int| 0 <= i < pixels(argb) && !#[trigger] like_first(argb, i);
        assert(quad(argb, i)[3] != 0);
        assert(quad(argb, j) != quad(argb, 0));
    }
    if (exists|i: int| 0 <= i < argb.len() as int / 4 && #[trigger] quad(argb, i) != quad(argb, 0)) && (exists|i: int|
        0 <= i < argb.len() as int / 4 && (#[trigger] quad(argb, i))[3] != 0) {
        let i = choose|i: int| 0 <= i < argb.len() as int / 4 && (#[trigger] quad(argb, i))[3] != 0;
        let j = choose|i: int| 0 <= i < argb.len() as int / 4 && #[trigger] quad(argb, i) != quad(argb, 0);
        assert(alpha(argb, i) != 0);
        assert(!like_first(argb, j));
    }
}

} // verus!
