//! Row-major 8-bit images as mathematical sequences, and a builder for them.

use vstd::arithmetic::div_mod::{lemma_fundamental_div_mod, lemma_fundamental_div_mod_converse};
use vstd::arithmetic::mul::{lemma_mul_inequality, lemma_mul_is_distributive_add_other_way};
use vstd::prelude::*;

verus! {

/// The row-major image of `w` columns and `h` rows whose pixel in column `x` of row `y` is
/// `px(x, y)`.
pub open spec fn raster(w: int, h: int, px: spec_fn(int, int) -> u8) -> Seq<u8> {
    Seq::new((w * h) as nat, |i: int| px(i % w, i / w))
}

/// Where the pixel in column `x` of row `y` stands in a row-major image of `w` columns.
pub open spec fn at(w: int, x: int, y: int) -> int {
    y * w + x
}

/// The position `at(w, x, y)` names column `x` and row `y`, and it lies inside the image.
pub proof fn lemma_at(w: int, h: int, x: int, y: int)
    requires
        0 <= x < w,
        0 <= y < h,
    ensures
        0 <= at(w, x, y) < w * h,
        0 <= y * w <= at(w, x, y),
        at(w, x, y) % w == x,
        at(w, x, y) / w == y,
{
    lemma_fundamental_div_mod_converse(y * w + x, w, y, x);
    assert(0 <= y * w) by (nonlinear_arith)
        requires
            0 <= y,
            0 < w,
    ;
    lemma_mul_inequality(y + 1, h, w);
    lemma_mul_is_distributive_add_other_way(w, y, 1);
    assert(h * w == w * h) by (nonlinear_arith);
}

/// Every position of an image is `at` its own column and row, which lie inside the image.
pub proof fn lemma_position(w: int, h: int, i: int)
    requires
        0 < w,
        0 <= i < w * h,
    ensures
        0 <= i % w < w,
        0 <= i / w < h,
        i == at(w, i % w, i / w),
{
    lemma_fundamental_div_mod(i, w);
    assert(0 <= i / w < h) by (nonlinear_arith)
        requires
            0 < w,
            0 <= i < w * h,
            i == w * (i / w) + i % w,
            0 <= i % w < w,
    ;
    assert(w * (i / w) == (i / w) * w) by (nonlinear_arith);
}

/// Two rasters of one size with the same pixels are the same image.
pub proof fn lemma_raster_ext(
    w: int,
    h: int,
    p: spec_fn(int, int) -> u8,
    q: spec_fn(int, int) -> u8,
)
    requires
        0 <= w,
        0 <= h,
        forall|x: int, y: int| 0 <= x < w && 0 <= y < h ==> #[trigger] p(x, y) == q(x, y),
    ensures
        raster(w, h, p) == raster(w, h, q),
{
    assert forall|i: int| 0 <= i < w * h implies #[trigger] raster(w, h, p)[i] == raster(w, h, q)[i] by {
        assert(0 < w) by (nonlinear_arith)
            requires
                0 <= w,
                0 <= i < w * h,
        ;
        lemma_position(w, h, i);
        assert(p(i % w, i / w) == q(i % w, i / w));
    }
    assert(raster(w, h, p) =~= raster(w, h, q));
}

/// An image is the raster of its own pixels.
pub proof fn lemma_raster_of(buf: Seq<u8>, w: int, h: int)
    requires
        0 <= w,
        0 <= h,
        buf.len() == w * h,
    ensures
        raster(w, h, |x: int, y: int| buf[at(w, x, y)]) == buf,
{
    let own = raster(w, h, |x: int, y: int| buf[at(w, x, y)]);
    assert forall|i: int| 0 <= i < w * h implies #[trigger] own[i] == buf[i] by {
        assert(0 < w) by (nonlinear_arith)
            requires
                0 <= w,
                0 <= i < w * h,
        ;
        lemma_position(w, h, i);
    }
    assert(own =~= buf);
}

/// The pixel in column `x` of row `y` of the image of `w` columns and `h` rows at the front of
/// `buf`.
pub(crate) fn pixel(buf: &[u8], w: usize, Ghost(h): Ghost<int>, x: usize, y: usize) -> (v: u8)
    requires
        x < w,
        y < h,
        w * h <= buf@.len(),
    ensures
        v == buf@[at(w as int, x as int, y as int)],
{
    proof {
        lemma_at(w as int, h, x as int, y as int);
        assert(buf@.len() == buf.len());
    }
    buf[y * w + x]
}

/// Builds the raster whose pixels `f` computes.
pub(crate) fn build_raster<F: Fn(usize, usize) -> u8>(
    w: usize,
    h: usize,
    f: F,
    Ghost(px): Ghost<spec_fn(int, int) -> u8>,
) -> (out: Vec<u8>)
    requires
        w * h <= usize::MAX,
        forall|x: usize, y: usize| x < w && y < h ==> #[trigger] f.requires((x, y)),
        forall|x: usize, y: usize, v: u8|
            x < w && y < h && #[trigger] f.ensures((x, y), v) ==> v == px(x as int, y as int),
    ensures
        out@ == raster(w as int, h as int, px),
{
    let mut out: Vec<u8> = Vec::with_capacity(w * h);
    for y in 0..h
        invariant
            w * h <= usize::MAX,
            forall|x: usize, y: usize| x < w && y < h ==> #[trigger] f.requires((x, y)),
            forall|x: usize, y: usize, v: u8|
                x < w && y < h && #[trigger] f.ensures((x, y), v) ==> v == px(x as int, y as int),
            out@.len() == y * w,
            forall|i: int| 0 <= i < out@.len() ==> #[trigger] out@[i] == px(i % w as int, i / w as int),
    {
        for x in 0..w
            invariant
                y < h,
                w * h <= usize::MAX,
                forall|x: usize, y: usize| x < w && y < h ==> #[trigger] f.requires((x, y)),
                forall|x: usize, y: usize, v: u8|
                    x < w && y < h && #[trigger] f.ensures((x, y), v) ==> v == px(
                        x as int,
                        y as int,
                    ),
                out@.len() == y * w + x,
                forall|i: int|
                    0 <= i < out@.len() ==> #[trigger] out@[i] == px(i % w as int, i / w as int),
        {
            let v: u8 = f(x, y);
            proof {
                lemma_at(w as int, h as int, x as int, y as int);
            }
            out.push(v);
        }
        proof {
            lemma_mul_is_distributive_add_other_way(w as int, y as int, 1);
        }
    }
    assert(w * h == h * w) by (nonlinear_arith);
    assert(out@ =~= raster(w as int, h as int, px));
    out
}

} // verus!
