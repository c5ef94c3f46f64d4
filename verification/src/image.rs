//! Cropping, padding, sharpening and downscaling of luma planes.

use crate::raster::{
    at, build_raster, lemma_at, lemma_position, lemma_raster_ext, lemma_raster_of, pixel, raster,
};
use vstd::arithmetic::mul::lemma_mul_inequality;
use vstd::prelude::*;

verus! {

/// A luma plane of `w` columns and `h` rows inside a white border `pad` pixels wide.
pub open spec fn padded(buf: Seq<u8>, w: int, h: int, pad: int) -> Seq<u8> {
    raster(
        w + 2 * pad,
        h + 2 * pad,
        |x: int, y: int|
            if pad <= x < pad + w && pad <= y < pad + h {
                buf[at(w, x - pad, y - pad)]
            } else {
                255u8
            },
    )
}

/// Surrounds a luma plane with a white border of `pad` pixels: the quiet zone that QR detection
/// needs when the code is framed edge to edge. Returns the plane and its new width and height.
pub fn pad_white(buf: &[u8], w: usize, h: usize, pad: usize) -> (r: (Vec<u8>, usize, usize))
    requires
        w * h <= buf@.len(),
        w + 2 * pad <= usize::MAX,
        h + 2 * pad <= usize::MAX,
        (w + 2 * pad) * (h + 2 * pad) <= isize::MAX,
    ensures
        r.0@ == padded(buf@, w as int, h as int, pad as int),
        r.1 == w + 2 * pad,
        r.2 == h + 2 * pad,
{
    let nw: usize = w + 2 * pad;
    let nh: usize = h + 2 * pad;
    let ghost px = |x: int, y: int|
        if pad <= x < pad + w && pad <= y < pad + h {
            buf@[at(w as int, x - pad, y - pad)]
        } else {
            255u8
        };
    let f = |x: usize, y: usize| -> (v: u8)
        requires
            x < nw,
            y < nh,
        ensures
            v == px(x as int, y as int),
        {
            if pad <= x && x - pad < w && pad <= y && y - pad < h {
                pixel(buf, w, Ghost(h as int), x - pad, y - pad)
            } else {
                255u8
            }
        };
    let out: Vec<u8> = build_raster(nw, nh, f, Ghost(px));
    (out, nw, nh)
}

/// A value held between 0 and 255.
pub open spec fn clamp_byte(v: int) -> u8 {
    if v < 0 {
        0u8
    } else if v > 255 {
        255u8
    } else {
        v as u8
    }
}

/// Five times the pixel in column `x` of row `y`, less its four orthogonal neighbours.
pub open spec fn sharp_sum(src: Seq<u8>, w: int, x: int, y: int) -> int {
    5 * src[at(w, x, y)] - src[at(w, x - 1, y)] - src[at(w, x + 1, y)] - src[at(w, x, y - 1)] - src[at(
        w,
        x,
        y + 1,
    )]
}

/// The sharpened plane. The border is unchanged, and so is a plane that is all border.
pub open spec fn sharpened(src: Seq<u8>, w: int, h: int) -> Seq<u8> {
    if w < 3 || h < 3 {
        src
    } else {
        raster(
            w,
            h,
            |x: int, y: int|
                if 0 < x < w - 1 && 0 < y < h - 1 {
                    clamp_byte(sharp_sum(src, w, x, y))
                } else {
                    src[at(w, x, y)]
                },
        )
    }
}

/// Sharpens a luma plane: centre times five, orthogonal neighbours times minus one. The weights
/// add up to one, so brightness is kept. Crisps soft modules, and amplifies sensor noise too.
pub fn sharpen3x3(src: &[u8], w: usize, h: usize) -> (out: Vec<u8>)
    requires
        w >= 3 && h >= 3 ==> src@.len() == w * h,
    ensures
        out@ == sharpened(src@, w as int, h as int),
{
    if w < 3 || h < 3 {
        return vstd::slice::slice_to_vec(src);
    }
    assert(src@.len() == src.len());
    let ghost px = |x: int, y: int|
        if 0 < x < w - 1 && 0 < y < h - 1 {
            clamp_byte(sharp_sum(src@, w as int, x, y))
        } else {
            src@[at(w as int, x, y)]
        };
    let f = |x: usize, y: usize| -> (v: u8)
        requires
            x < w,
            y < h,
        ensures
            v == px(x as int, y as int),
        {
            let gh: Ghost<int> = Ghost(h as int);
            let centre: u8 = pixel(src, w, gh, x, y);
            if 0 < x && x < w - 1 && 0 < y && y < h - 1 {
                let sum: i32 = 5 * centre as i32 - pixel(src, w, gh, x - 1, y) as i32 - pixel(
                    src,
                    w,
                    gh,
                    x + 1,
                    y,
                ) as i32 - pixel(src, w, gh, x, y - 1) as i32 - pixel(src, w, gh, x, y + 1) as i32;
                if sum < 0 {
                    0u8
                } else if sum > 255 {
                    255u8
                } else {
                    sum as u8
                }
            } else {
                centre
            }
        };
    build_raster(w, h, f, Ghost(px))
}

/// The rectangle of `cw` columns and `ch` rows whose corner is column `x0` of row `y0` in a plane
/// of `w` columns. A row that reaches past the end of the plane is black.
pub open spec fn cropped(luma: Seq<u8>, w: int, x0: int, y0: int, cw: int, ch: int) -> Seq<u8> {
    raster(
        cw,
        ch,
        |x: int, y: int|
            if at(w, x0, y0 + y) + cw <= luma.len() {
                luma[at(w, x0 + x, y0 + y)]
            } else {
                0u8
            },
    )
}

/// Whether a rectangle can be copied on this machine: its pixels fit in one allocation, and the
/// offsets of its rows can be counted.
pub open spec fn crop_fits(w: int, x0: int, y0: int, cw: int, ch: int) -> bool {
    &&& cw * ch <= isize::MAX
    &&& ch > 0 ==> y0 + ch - 1 <= usize::MAX && at(w, x0, y0 + ch - 1) + cw <= usize::MAX
}

/// Whether a rectangle can be copied on this machine.
pub(crate) fn is_crop_fit(w: u32, x0: u32, y0: u32, cw: u32, ch: u32) -> (b: bool)
    ensures
        b == crop_fits(w as int, x0 as int, y0 as int, cw as int, ch as int),
{
    assert(0 <= cw * ch <= u32::MAX * u32::MAX) by (nonlinear_arith)
        requires
            cw <= u32::MAX,
            ch <= u32::MAX,
    ;
    if cw as u128 * ch as u128 > isize::MAX as u128 {
        return false;
    }
    if ch == 0 {
        return true;
    }
    let last: u128 = y0 as u128 + ch as u128 - 1;
    assert(0 <= last * w <= 2 * u32::MAX * u32::MAX) by (nonlinear_arith)
        requires
            last <= 2 * u32::MAX,
            w <= u32::MAX,
    ;
    last <= usize::MAX as u128 && last * w as u128 + x0 as u128 + cw as u128 <= usize::MAX as u128
}

/// Copies the rectangle of `cw` columns and `ch` rows at `(x0, y0)` out of a luma plane.
pub fn crop_region(luma: &[u8], w: usize, x0: usize, y0: usize, cw: usize, ch: usize) -> (out: Vec<
    u8,
>)
    requires
        crop_fits(w as int, x0 as int, y0 as int, cw as int, ch as int),
    ensures
        out@ == cropped(luma@, w as int, x0 as int, y0 as int, cw as int, ch as int),
{
    let len: usize = luma.len();
    let ghost px = |x: int, y: int|
        if at(w as int, x0 as int, y0 + y) + cw <= luma@.len() {
            luma@[at(w as int, x0 + x, y0 + y)]
        } else {
            0u8
        };
    let f = |x: usize, y: usize| -> (v: u8)
        requires
            x < cw,
            y < ch,
        ensures
            v == px(x as int, y as int),
        {
            proof {
                lemma_mul_inequality(y0 + y, y0 + ch - 1, w as int);
                assert(0 <= (y0 + y) * w) by (nonlinear_arith);
            }
            let start: usize = (y0 + y) * w + x0;
            if start + cw <= len {
                luma[start + x]
            } else {
                0u8
            }
        };
    build_raster(cw, ch, f, Ghost(px))
}

/// A plane at half size: each pixel is the mean of a two-by-two block, rounded down.
pub open spec fn halved(luma: Seq<u8>, w: int, h: int) -> Seq<u8> {
    raster(
        w / 2,
        h / 2,
        |x: int, y: int| (block_sum(luma, w, x, y) / 4) as u8,
    )
}

/// The sum of the two-by-two block whose corner is column `2 * x` of row `2 * y`.
pub open spec fn block_sum(luma: Seq<u8>, w: int, x: int, y: int) -> int {
    luma[at(w, 2 * x, 2 * y)] + luma[at(w, 2 * x + 1, 2 * y)] + luma[at(w, 2 * x, 2 * y + 1)]
        + luma[at(w, 2 * x + 1, 2 * y + 1)]
}

/// Box-averages a luma plane down to half its width and height, both rounded down. Returns the
/// plane and its new width and height.
pub fn downscale2(luma: &[u8], w: usize, h: usize) -> (r: (Vec<u8>, usize, usize))
    requires
        w >= 2 && h >= 2 ==> at(w as int, 2 * (w / 2) - 1, 2 * (h / 2) - 1) < luma@.len(),
    ensures
        r.0@ == halved(luma@, w as int, h as int),
        r.1 == w / 2,
        r.2 == h / 2,
{
    let nw: usize = w / 2;
    let nh: usize = h / 2;
    let len: usize = luma.len();
    let ghost px = |x: int, y: int| (block_sum(luma@, w as int, x, y) / 4) as u8;
    proof {
        if w >= 2 && h >= 2 {
            lemma_mul_inequality(nw as int, w as int, nh as int);
            assert(w * nh <= (2 * nh - 1) * w) by (nonlinear_arith)
                requires
                    nh >= 1,
            ;
        } else {
            assert(nw * nh == 0) by (nonlinear_arith)
                requires
                    nw == 0 || nh == 0,
            ;
        }
    }
    let f = |x: usize, y: usize| -> (v: u8)
        requires
            x < nw,
            y < nh,
        ensures
            v == px(x as int, y as int),
        {
            proof {
                lemma_mul_inequality(2 * y, 2 * y + 1, w as int);
                lemma_mul_inequality(2 * y + 1, 2 * nh - 1, w as int);
                assert(0 <= (2 * y) * w) by (nonlinear_arith);
            }
            let r0: usize = (2 * y) * w;
            let r1: usize = (2 * y + 1) * w;
            let c: usize = 2 * x;
            let sum: u16 = luma[r0 + c] as u16 + luma[r0 + c + 1] as u16 + luma[r1 + c] as u16
                + luma[r1 + c + 1] as u16;
            (sum / 4) as u8
        };
    let out: Vec<u8> = build_raster(nw, nh, f, Ghost(px));
    (out, nw, nh)
}

/// The smaller of two lengths.
pub open spec fn least(a: int, b: int) -> int {
    if a <= b {
        a
    } else {
        b
    }
}

/// The largest square that stands centred in a plane of `w` columns and `h` rows.
pub open spec fn center_square(luma: Seq<u8>, w: int, h: int) -> Seq<u8> {
    let s = least(w, h);
    cropped(luma, w, (w - s) / 2, (h - s) / 2, s, s)
}

/// Whether the centred square of a plane can be copied on this machine.
pub open spec fn center_fits(w: int, h: int) -> bool {
    let s = least(w, h);
    crop_fits(w, (w - s) / 2, (h - s) / 2, s, s)
}

/// Copies the centred square, as wide as the shorter side, out of a luma plane. Returns the square
/// and its side.
pub fn crop_center_square(luma: &[u8], w: usize, h: usize) -> (r: (Vec<u8>, usize))
    requires
        center_fits(w as int, h as int),
    ensures
        r.0@ == center_square(luma@, w as int, h as int),
        r.1 == least(w as int, h as int),
{
    let s: usize = if w <= h {
        w
    } else {
        h
    };
    (crop_region(luma, w, (w - s) / 2, (h - s) / 2, s, s), s)
}

/// Taking the whole of a plane out of itself gives it back.
pub proof fn law_whole_crop_is_the_plane(luma: Seq<u8>, w: int, h: int)
    requires
        0 <= w,
        0 <= h,
        luma.len() == w * h,
    ensures
        cropped(luma, w, 0, 0, w, h) == luma,
{
    let px = |x: int, y: int|
        if at(w, 0, 0 + y) + w <= luma.len() {
            luma[at(w, 0 + x, 0 + y)]
        } else {
            0u8
        };
    let own = |x: int, y: int| luma[at(w, x, y)];
    assert forall|x: int, y: int| 0 <= x < w && 0 <= y < h implies #[trigger] px(x, y) == own(x, y) by {
        lemma_at(w, h, w - 1, y);
    }
    lemma_raster_ext(w, h, px, own);
    lemma_raster_of(luma, w, h);
}

/// Taking the middle out of a padded plane gives back what was padded.
pub proof fn law_crop_undoes_pad(buf: Seq<u8>, w: int, h: int, pad: int)
    requires
        0 <= w,
        0 <= h,
        0 <= pad,
        buf.len() == w * h,
    ensures
        cropped(padded(buf, w, h, pad), w + 2 * pad, pad, pad, w, h) == buf,
{
    let nw = w + 2 * pad;
    let nh = h + 2 * pad;
    let big = padded(buf, w, h, pad);
    let px = |x: int, y: int|
        if at(nw, pad, pad + y) + w <= big.len() {
            big[at(nw, pad + x, pad + y)]
        } else {
            0u8
        };
    let own = |x: int, y: int| buf[at(w, x, y)];
    assert(0 <= nw * nh) by (nonlinear_arith)
        requires
            0 <= nw,
            0 <= nh,
    ;
    assert forall|x: int, y: int| 0 <= x < w && 0 <= y < h implies #[trigger] px(x, y) == own(x, y) by {
        lemma_at(nw, nh, pad + w - 1, pad + y);
        lemma_at(nw, nh, pad + x, pad + y);
    }
    lemma_raster_ext(w, h, px, own);
    lemma_raster_of(buf, w, h);
}

/// A plane of one brightness.
pub open spec fn is_even(luma: Seq<u8>, v: u8) -> bool {
    forall|i: int| 0 <= i < luma.len() ==> #[trigger] luma[i] == v
}

/// Sharpening keeps brightness: a plane of one brightness stays as it is.
pub proof fn law_sharpening_keeps_an_even_plane(src: Seq<u8>, w: int, h: int, v: u8)
    requires
        0 <= w,
        0 <= h,
        src.len() == w * h,
        is_even(src, v),
    ensures
        sharpened(src, w, h) == src,
{
    if w >= 3 && h >= 3 {
        let px = |x: int, y: int|
            if 0 < x < w - 1 && 0 < y < h - 1 {
                clamp_byte(sharp_sum(src, w, x, y))
            } else {
                src[at(w, x, y)]
            };
        let own = |x: int, y: int| src[at(w, x, y)];
        assert forall|x: int, y: int| 0 <= x < w && 0 <= y < h implies #[trigger] px(x, y) == own(
            x,
            y,
        ) by {
            lemma_at(w, h, x, y);
            if 0 < x < w - 1 && 0 < y < h - 1 {
                lemma_at(w, h, x - 1, y);
                lemma_at(w, h, x + 1, y);
                lemma_at(w, h, x, y - 1);
                lemma_at(w, h, x, y + 1);
            }
        }
        lemma_raster_ext(w, h, px, own);
        lemma_raster_of(src, w, h);
    }
}

/// Halving keeps brightness: a plane of one brightness becomes a smaller one of the same.
pub proof fn law_halving_keeps_an_even_plane(luma: Seq<u8>, w: int, h: int, v: u8)
    requires
        0 <= w,
        0 <= h,
        luma.len() == w * h,
        is_even(luma, v),
    ensures
        is_even(halved(luma, w, h), v),
        halved(luma, w, h).len() == (w / 2) * (h / 2),
{
    let half = halved(luma, w, h);
    assert(0 <= (w / 2) * (h / 2)) by (nonlinear_arith)
        requires
            0 <= w / 2,
            0 <= h / 2,
    ;
    assert forall|i: int| 0 <= i < half.len() implies #[trigger] half[i] == v by {
        assert(0 < w / 2) by (nonlinear_arith)
            requires
                0 <= w / 2,
                0 <= i < (w / 2) * (h / 2),
        ;
        lemma_position(w / 2, h / 2, i);
        let x = i % (w / 2);
        let y = i / (w / 2);
        lemma_at(w, h, 2 * x, 2 * y);
        lemma_at(w, h, 2 * x + 1, 2 * y);
        lemma_at(w, h, 2 * x, 2 * y + 1);
        lemma_at(w, h, 2 * x + 1, 2 * y + 1);
    }
}

/// A padded plane holds every pixel of the plane, moved by the border, and white everywhere else.
pub proof fn law_padding_moves_pixels(buf: Seq<u8>, w: int, h: int, pad: int, x: int, y: int)
    requires
        0 <= w,
        0 <= h,
        0 <= pad,
        0 <= x < w + 2 * pad,
        0 <= y < h + 2 * pad,
    ensures
        padded(buf, w, h, pad).len() == (w + 2 * pad) * (h + 2 * pad),
        padded(buf, w, h, pad)[y * (w + 2 * pad) + x] == if pad <= x < pad + w && pad <= y < pad + h {
            buf[(y - pad) * w + (x - pad)]
        } else {
            255u8
        },
{
    lemma_at(w + 2 * pad, h + 2 * pad, x, y);
}

/// A pixel inside the border becomes five times itself less its four neighbours, held between black
/// and white; a pixel of the border stays.
pub proof fn law_sharpening_weighs_neighbours(src: Seq<u8>, w: int, h: int, x: int, y: int)
    requires
        3 <= w,
        3 <= h,
        src.len() == w * h,
        0 <= x < w,
        0 <= y < h,
    ensures
        sharpened(src, w, h).len() == src.len(),
        ({
            let c = y * w + x;
            let t = 5 * src[c] - src[c - 1] - src[c + 1] - src[c - w] - src[c + w];
            let r = sharpened(src, w, h)[c];
            if x == 0 || x == w - 1 || y == 0 || y == h - 1 {
                r == src[c]
            } else if t < 0 {
                r == 0
            } else if t > 255 {
                r == 255
            } else {
                r == t
            }
        }),
{
    lemma_at(w, h, x, y);
    assert((y - 1) * w == y * w - w && (y + 1) * w == y * w + w) by (nonlinear_arith);
}

/// A plane too narrow or too low to have anything inside its border stays as it is.
pub proof fn law_narrow_planes_are_not_sharpened(src: Seq<u8>, w: int, h: int)
    requires
        w < 3 || h < 3,
    ensures
        sharpened(src, w, h) == src,
{
}

/// A crop holds the pixels of the plane, moved by its corner; a row that does not lie in the plane
/// whole is black.
pub proof fn law_cropping_moves_pixels(
    luma: Seq<u8>,
    w: int,
    x0: int,
    y0: int,
    cw: int,
    ch: int,
    x: int,
    y: int,
)
    requires
        0 <= x < cw,
        0 <= y < ch,
    ensures
        cropped(luma, w, x0, y0, cw, ch).len() == cw * ch,
        cropped(luma, w, x0, y0, cw, ch)[y * cw + x] == if (y0 + y) * w + x0 + cw <= luma.len() {
            luma[(y0 + y) * w + (x0 + x)]
        } else {
            0u8
        },
{
    lemma_at(cw, ch, x, y);
}

/// A pixel of a halved plane is the mean of the four pixels that it stands for, rounded down.
pub proof fn law_halving_takes_means(luma: Seq<u8>, w: int, h: int, x: int, y: int)
    requires
        0 <= x < w / 2,
        0 <= y < h / 2,
    ensures
        halved(luma, w, h).len() == (w / 2) * (h / 2),
        ({
            let r = halved(luma, w, h)[y * (w / 2) + x];
            let sum = luma[2 * y * w + 2 * x] + luma[2 * y * w + 2 * x + 1] + luma[(2 * y + 1) * w + 2
                * x] + luma[(2 * y + 1) * w + 2 * x + 1];
            4 * r <= sum < 4 * r + 4
        }),
{
    lemma_at(w / 2, h / 2, x, y);
    assert((2 * y) * w == 2 * y * w) by (nonlinear_arith);
}

/// The centre square is as wide and as high as the shorter side, and holds the pixels of the plane,
/// moved by half of what is left over on each side.
pub proof fn law_centre_square_is_centred(luma: Seq<u8>, w: int, h: int, s: int, x: int, y: int)
    requires
        s <= w,
        s <= h,
        s == w || s == h,
        luma.len() == w * h,
        0 <= x < s,
        0 <= y < s,
    ensures
        center_square(luma, w, h).len() == s * s,
        center_square(luma, w, h)[y * s + x] == luma[((h - s) / 2 + y) * w + ((w - s) / 2 + x)],
{
    law_cropping_moves_pixels(luma, w, (w - s) / 2, (h - s) / 2, s, s, x, y);
    lemma_at(w, h, (w - s) / 2 + s - 1, (h - s) / 2 + y);
}

/// The centre square of a plane that lacks rows is black in those rows, and else as it would be.
pub proof fn law_centre_square_of_a_short_plane(luma: Seq<u8>, w: int, h: int, s: int, x: int, y: int)
    requires
        s <= w,
        s <= h,
        s == w || s == h,
        0 <= x < s,
        0 <= y < s,
    ensures
        center_square(luma, w, h).len() == s * s,
        ({
            let row = ((h - s) / 2 + y) * w + (w - s) / 2;
            center_square(luma, w, h)[y * s + x] == if row + s <= luma.len() {
                luma[row + x]
            } else {
                0u8
            }
        }),
{
    law_cropping_moves_pixels(luma, w, (w - s) / 2, (h - s) / 2, s, s, x, y);
}

} // verus!
