//! The aiming preview: a luma plane averaged down to a thumbnail.

use crate::encoding::{base64_len, base64_text, encode, law_base64_keeps_everything};
use crate::frames::PreviewData;
use crate::image::{is_even, least};
use crate::raster::{
    at, build_raster, lemma_at, lemma_position, lemma_raster_ext, lemma_raster_of, raster,
};
use vstd::arithmetic::mul::lemma_mul_inequality;
use vstd::prelude::*;

verus! {

/// The width of the thumbnail, unless the frame is narrower.
pub const PREVIEW_W: usize = 480;

/// The larger of two lengths.
pub open spec fn greatest(a: int, b: int) -> int {
    if a >= b {
        a
    } else {
        b
    }
}

/// How many columns the thumbnail of a plane of `w` columns has.
pub open spec fn preview_w(w: int) -> int {
    greatest(least(PREVIEW_W as int, w), 1)
}

/// How many rows the thumbnail of a plane of `w` columns and `h` rows has: the aspect is kept.
pub open spec fn preview_h(w: int, h: int) -> int {
    greatest(preview_w(w) * h / w, 1)
}

/// Where part `i` begins when `len` pixels are shared out among `parts` parts.
pub open spec fn part_start(i: int, parts: int, len: int) -> int {
    i * len / parts
}

/// Where part `i` ends: where the next one begins, but no part of a side with pixels is empty.
pub open spec fn part_end(i: int, parts: int, len: int) -> int {
    least(greatest(part_start(i + 1, parts, len), part_start(i, parts, len) + 1), len)
}

/// The sum of the pixels of row `y` from column `x0` up to `x1`.
pub open spec fn row_sum(luma: Seq<u8>, w: int, y: int, x0: int, x1: int) -> int
    decreases x1 - x0,
{
    if x1 <= x0 {
        0
    } else {
        row_sum(luma, w, y, x0, x1 - 1) + luma[at(w, x1 - 1, y)]
    }
}

/// The sum of the pixels from column `x0` up to `x1` of the rows from `y0` up to `y1`.
pub open spec fn box_sum(luma: Seq<u8>, w: int, x0: int, x1: int, y0: int, y1: int) -> int
    decreases y1 - y0,
{
    if y1 <= y0 {
        0
    } else {
        box_sum(luma, w, x0, x1, y0, y1 - 1) + row_sum(luma, w, y1 - 1, x0, x1)
    }
}

/// The mean of a box of pixels, rounded down. The mean of no pixels is zero.
pub open spec fn box_mean(luma: Seq<u8>, w: int, x0: int, x1: int, y0: int, y1: int) -> u8 {
    (box_sum(luma, w, x0, x1, y0, y1) / greatest((x1 - x0) * (y1 - y0), 1)) as u8
}

/// The thumbnail of a luma plane of `w` columns and `h` rows.
pub open spec fn thumbnail(luma: Seq<u8>, w: int, h: int) -> Seq<u8> {
    let pw = preview_w(w);
    let ph = preview_h(w, h);
    raster(
        pw,
        ph,
        |x: int, y: int|
            box_mean(
                luma,
                w,
                part_start(x, pw, w),
                part_end(x, pw, w),
                part_start(y, ph, h),
                part_end(y, ph, h),
            ),
    )
}

/// A row sum lies between zero and 255 times the number of its pixels.
proof fn lemma_row_sum_bound(luma: Seq<u8>, w: int, y: int, x0: int, x1: int)
    requires
        x0 <= x1,
    ensures
        0 <= row_sum(luma, w, y, x0, x1) <= 255 * (x1 - x0),
    decreases x1 - x0,
{
    if x0 < x1 {
        lemma_row_sum_bound(luma, w, y, x0, x1 - 1);
    }
}

/// A box sum lies between zero and 255 times the number of its pixels.
proof fn lemma_box_sum_bound(luma: Seq<u8>, w: int, x0: int, x1: int, y0: int, y1: int)
    requires
        x0 <= x1,
        y0 <= y1,
    ensures
        0 <= box_sum(luma, w, x0, x1, y0, y1) <= 255 * ((x1 - x0) * (y1 - y0)),
    decreases y1 - y0,
{
    if y0 < y1 {
        lemma_box_sum_bound(luma, w, x0, x1, y0, y1 - 1);
        lemma_row_sum_bound(luma, w, y1 - 1, x0, x1);
    }
    assert((x1 - x0) * (y1 - y0) == (x1 - x0) * (y1 - 1 - y0) + (x1 - x0)) by (nonlinear_arith);
    assert((x1 - x0) * 0 == 0);
}

/// Where a part begins and ends: in order, and inside the side.
proof fn lemma_part(i: int, parts: int, len: int)
    requires
        0 <= i < parts,
        0 <= len,
    ensures
        0 <= part_start(i, parts, len) <= part_end(i, parts, len) <= len,
        i * len <= parts * len,
        (i + 1) * len <= parts * len,
        0 <= i * len,
{
    lemma_mul_inequality(i, parts, len);
    lemma_mul_inequality(i + 1, parts, len);
    assert(0 <= i * len) by (nonlinear_arith)
        requires
            0 <= i,
            0 <= len,
    ;
    assert(0 <= i * len / parts <= len) by (nonlinear_arith)
        requires
            0 < parts,
            0 <= i * len <= parts * len,
    ;
}

/// Computes the mean of a box of pixels.
fn mean_of_box(
    luma: &[u8],
    w: usize,
    Ghost(h): Ghost<int>,
    x0: usize,
    x1: usize,
    y0: usize,
    y1: usize,
) -> (v: u8)
    requires
        x0 <= x1 <= w,
        y0 <= y1 <= h,
        w * h <= luma@.len(),
    ensures
        v == box_mean(luma@, w as int, x0 as int, x1 as int, y0 as int, y1 as int),
{
    let len: usize = luma.len();
    let mut sum: u128 = 0;
    for y in y0..y1
        invariant
            len == luma@.len(),
            x0 <= x1 <= w,
            y0 <= y1 <= h,
            w * h <= luma@.len(),
            sum == box_sum(luma@, w as int, x0 as int, x1 as int, y0 as int, y as int),
    {
        let ghost before = sum;
        proof {
            lemma_box_sum_bound(luma@, w as int, x0 as int, x1 as int, y0 as int, y as int);
            lemma_area(w as int, h, x1 - x0, y - y0);
        }
        for x in x0..x1
            invariant
                len == luma@.len(),
                x1 <= w,
                y < h,
                w * h <= luma@.len(),
                before <= 255 * usize::MAX,
                sum == before + row_sum(luma@, w as int, y as int, x0 as int, x as int),
        {
            proof {
                lemma_at(w as int, h, x as int, y as int);
                lemma_row_sum_bound(luma@, w as int, y as int, x0 as int, x as int);
            }
            sum = sum + luma[y * w + x] as u128;
        }
    }
    proof {
        lemma_box_sum_bound(luma@, w as int, x0 as int, x1 as int, y0 as int, y1 as int);
        lemma_area(w as int, h, x1 - x0, y1 - y0);
    }
    let count: usize = (x1 - x0) * (y1 - y0);
    if count == 0 {
        0u8
    } else {
        proof {
            assert(0 <= sum as int / count as int <= 255) by (nonlinear_arith)
                requires
                    0 <= sum <= 255 * count,
                    count > 0,
            ;
        }
        (sum / count as u128) as u8
    }
}

/// A rectangle inside a plane has no more pixels than the plane.
proof fn lemma_area(w: int, h: int, cw: int, ch: int)
    requires
        0 <= cw <= w,
        0 <= ch <= h,
    ensures
        0 <= cw * ch <= w * h,
{
    assert(0 <= cw * ch <= w * h) by (nonlinear_arith)
        requires
            0 <= cw <= w,
            0 <= ch <= h,
    ;
}

/// Whether a luma plane can be averaged down to a thumbnail: it has columns, all its pixels are
/// there, and the thumbnail's text fits in memory.
pub open spec fn can_preview(len: int, w: int, h: int) -> bool {
    &&& w > 0
    &&& w * h <= len
    &&& base64_len(preview_w(w) * preview_h(w, h)) <= isize::MAX
}

/// Whether `p` is the preview of a luma plane of `w` columns and `h` rows.
pub open spec fn is_preview(p: PreviewData, luma: Seq<u8>, w: int, h: int, orientation: i32) -> bool {
    &&& p.w == preview_w(w)
    &&& p.h == preview_h(w, h)
    &&& p.gray@ == base64_text(thumbnail(luma, w, h))
    &&& p.orientation == orientation
}

/// The thumbnail has at least one column and one row, and no more of either than the plane.
proof fn lemma_preview_size(w: int, h: int)
    requires
        w > 0,
        h >= 0,
    ensures
        1 <= preview_w(w) <= w,
        preview_w(w) <= PREVIEW_W,
        1 <= preview_h(w, h) <= greatest(h, 1),
        0 <= preview_w(w) * h <= PREVIEW_W * h,
{
    let pw = preview_w(w);
    lemma_mul_inequality(pw, w, h);
    lemma_mul_inequality(pw, PREVIEW_W as int, h);
    assert(0 <= pw * h / w <= h) by (nonlinear_arith)
        requires
            w > 0,
            0 <= pw * h <= w * h,
    ;
}

/// Computes how many columns and rows the thumbnail has.
fn preview_size(w: u32, h: u32) -> (r: (u64, u64))
    requires
        w > 0,
    ensures
        r.0 == preview_w(w as int),
        r.1 == preview_h(w as int, h as int),
        1 <= r.0 <= w,
        r.0 <= PREVIEW_W,
        1 <= r.1 <= greatest(h as int, 1),
{
    proof {
        lemma_preview_size(w as int, h as int);
    }
    let pw: u64 = if w as u64 >= PREVIEW_W as u64 {
        PREVIEW_W as u64
    } else {
        w as u64
    };
    let scaled: u64 = pw * h as u64 / w as u64;
    let ph: u64 = if scaled >= 1 {
        scaled
    } else {
        1
    };
    (pw, ph)
}

/// Averages a luma plane of `w` columns and `h` rows down to a grayscale thumbnail. Averaging keeps
/// the picture smooth where picking single pixels would make it grainy.
pub fn downscale_preview(luma: &[u8], w: u32, h: u32, orientation: i32) -> (r: PreviewData)
    requires
        can_preview(luma@.len() as int, w as int, h as int),
    ensures
        is_preview(r, luma@, w as int, h as int, orientation),
{
    let len: usize = luma.len();
    let (pw, ph): (u64, u64) = preview_size(w, h);
    proof {
        lemma_mul_inequality(1, ph as int, pw as int);
        lemma_mul_inequality(1, pw as int, ph as int);
        assert(pw * ph == ph * pw) by (nonlinear_arith);
        if h > 0 {
            lemma_mul_inequality(1, h as int, w as int);
            lemma_mul_inequality(1, w as int, h as int);
            assert(w * h == h * w) by (nonlinear_arith);
        }
    }
    let ghost iw = w as int;
    let ghost ih = h as int;
    let ghost px = |x: int, y: int|
        box_mean(
            luma@,
            iw,
            part_start(x, pw as int, iw),
            part_end(x, pw as int, iw),
            part_start(y, ph as int, ih),
            part_end(y, ph as int, ih),
        );
    let f = |x: usize, y: usize| -> (v: u8)
        requires
            x < pw,
            y < ph,
        ensures
            v == px(x as int, y as int),
        {
            let (x0, x1): (u64, u64) = part(x as u64, pw, w);
            let (y0, y1): (u64, u64) = part(y as u64, ph, h);
            mean_of_box(
                luma,
                w as usize,
                Ghost(ih),
                x0 as usize,
                x1 as usize,
                y0 as usize,
                y1 as usize,
            )
        };
    let out: Vec<u8> = build_raster(pw as usize, ph as usize, f, Ghost(px));
    PreviewData { w: pw as u32, h: ph as u32, gray: encode(out.as_slice()), orientation }
}

/// Computes where a part begins and ends.
fn part(i: u64, parts: u64, len: u32) -> (r: (u64, u64))
    requires
        i < parts <= u32::MAX,
    ensures
        r.0 == part_start(i as int, parts as int, len as int),
        r.1 == part_end(i as int, parts as int, len as int),
        r.0 <= r.1 <= len,
{
    proof {
        lemma_part(i as int, parts as int, len as int);
        assert(parts * len <= u64::MAX) by (nonlinear_arith)
            requires
                parts <= u32::MAX,
                len <= u32::MAX,
        ;
    }
    let start: u64 = i * len as u64 / parts;
    let next: u64 = (i + 1) * len as u64 / parts;
    let end: u64 = if next >= start + 1 {
        next
    } else {
        start + 1
    };
    if end <= len as u64 {
        (start, end)
    } else {
        (start, len as u64)
    }
}

/// The thumbnail of a frame, or nothing where the frame cannot be averaged down.
pub fn try_preview(luma: &[u8], w: u32, h: u32, orientation: i32) -> (r: Option<PreviewData>)
    ensures
        r is Some <==> can_preview(luma@.len() as int, w as int, h as int),
        r matches Some(p) ==> is_preview(p, luma@, w as int, h as int, orientation),
{
    let len: usize = luma.len();
    assert(w * h <= u64::MAX) by (nonlinear_arith)
        requires
            w <= u32::MAX,
            h <= u32::MAX,
    ;
    if w == 0 || w as u64 * h as u64 > len as u64 {
        return None;
    }
    let (pw, ph): (u64, u64) = preview_size(w, h);
    assert(pw * ph <= 480 * 0x1_0000_0000) by (nonlinear_arith)
        requires
            pw <= 480,
            ph <= 0x1_0000_0000,
    ;
    if (pw * ph + 2) / 3 * 4 > isize::MAX as u64 {
        return None;
    }
    Some(downscale_preview(luma, w, h, orientation))
}

/// The sum of a row of one brightness.
proof fn lemma_even_row(luma: Seq<u8>, w: int, h: int, y: int, x0: int, x1: int, v: u8)
    requires
        0 <= x0 <= x1 <= w,
        0 <= y < h,
        luma.len() == w * h,
        is_even(luma, v),
    ensures
        row_sum(luma, w, y, x0, x1) == v * (x1 - x0),
    decreases x1 - x0,
{
    if x0 < x1 {
        lemma_even_row(luma, w, h, y, x0, x1 - 1, v);
        lemma_at(w, h, x1 - 1, y);
        assert(v * (x1 - x0) == v * (x1 - 1 - x0) + v) by (nonlinear_arith);
    } else {
        assert(v * 0 == 0);
    }
}

/// The sum of a box of one brightness.
proof fn lemma_even_box(luma: Seq<u8>, w: int, h: int, x0: int, x1: int, y0: int, y1: int, v: u8)
    requires
        0 <= x0 <= x1 <= w,
        0 <= y0 <= y1 <= h,
        luma.len() == w * h,
        is_even(luma, v),
    ensures
        box_sum(luma, w, x0, x1, y0, y1) == v * ((x1 - x0) * (y1 - y0)),
    decreases y1 - y0,
{
    if y0 < y1 {
        lemma_even_box(luma, w, h, x0, x1, y0, y1 - 1, v);
        lemma_even_row(luma, w, h, y1 - 1, x0, x1, v);
        assert(v * ((x1 - x0) * (y1 - y0)) == v * ((x1 - x0) * (y1 - 1 - y0)) + v * (x1 - x0))
            by (nonlinear_arith);
    } else {
        assert(v * ((x1 - x0) * 0) == 0) by (nonlinear_arith);
    }
}

/// A part of a side with pixels is not empty.
proof fn lemma_part_not_empty(i: int, parts: int, len: int)
    requires
        0 <= i < parts,
        0 < len,
    ensures
        part_start(i, parts, len) < part_end(i, parts, len),
{
    assert(i * len / parts < len) by (nonlinear_arith)
        requires
            0 <= i < parts,
            0 < len,
    ;
}

/// The thumbnail is never empty, never wider than its limit, and never larger than the frame.
pub proof fn law_thumbnail_is_small(w: int, h: int)
    requires
        w > 0,
        h > 0,
    ensures
        1 <= preview_w(w) <= w,
        preview_w(w) <= PREVIEW_W,
        1 <= preview_h(w, h) <= h,
{
    lemma_preview_size(w, h);
}

/// The thumbnail keeps brightness: of a plane of one brightness it is a picture of the same.
pub proof fn law_thumbnail_keeps_an_even_plane(luma: Seq<u8>, w: int, h: int, v: u8)
    requires
        0 < w,
        0 < h,
        luma.len() == w * h,
        is_even(luma, v),
    ensures
        is_even(thumbnail(luma, w, h), v),
        thumbnail(luma, w, h).len() == preview_w(w) * preview_h(w, h),
{
    let pw = preview_w(w);
    let ph = preview_h(w, h);
    let thumb = thumbnail(luma, w, h);
    lemma_preview_size(w, h);
    assert(0 <= pw * ph) by (nonlinear_arith)
        requires
            0 <= pw,
            0 <= ph,
    ;
    assert forall|i: int| 0 <= i < thumb.len() implies #[trigger] thumb[i] == v by {
        lemma_position(pw, ph, i);
        let (x, y) = (i % pw, i / pw);
        let (x0, x1) = (part_start(x, pw, w), part_end(x, pw, w));
        let (y0, y1) = (part_start(y, ph, h), part_end(y, ph, h));
        lemma_part(x, pw, w);
        lemma_part(y, ph, h);
        lemma_part_not_empty(x, pw, w);
        lemma_part_not_empty(y, ph, h);
        lemma_even_box(luma, w, h, x0, x1, y0, y1, v);
        let n = (x1 - x0) * (y1 - y0);
        assert(n >= 1) by (nonlinear_arith)
            requires
                n == (x1 - x0) * (y1 - y0),
                x1 - x0 >= 1,
                y1 - y0 >= 1,
        ;
        assert(v * n / n == v) by (nonlinear_arith)
            requires
                n >= 1,
        ;
    }
}

/// A frame that is no wider than the thumbnail may be is its own thumbnail.
pub proof fn law_small_frames_are_their_own_thumbnail(luma: Seq<u8>, w: int, h: int)
    requires
        0 < w <= PREVIEW_W,
        0 < h,
        luma.len() == w * h,
    ensures
        preview_w(w) == w,
        preview_h(w, h) == h,
        thumbnail(luma, w, h) == luma,
{
    assert(w * h / w == h) by (nonlinear_arith)
        requires
            0 < w,
    ;
    let px = |x: int, y: int|
        box_mean(
            luma,
            w,
            part_start(x, w, w),
            part_end(x, w, w),
            part_start(y, h, h),
            part_end(y, h, h),
        );
    let own = |x: int, y: int| luma[at(w, x, y)];
    assert forall|x: int, y: int| 0 <= x < w && 0 <= y < h implies #[trigger] px(x, y) == own(x, y) by {
        lemma_whole_part(x, w);
        lemma_whole_part(y, h);
        reveal_with_fuel(row_sum, 2);
        reveal_with_fuel(box_sum, 2);
        lemma_at(w, h, x, y);
        assert(box_sum(luma, w, x, x + 1, y, y + 1) == luma[at(w, x, y)]);
        assert((x + 1 - x) * (y + 1 - y) == 1) by (nonlinear_arith);
    }
    lemma_raster_ext(w, h, px, own);
    lemma_raster_of(luma, w, h);
}

/// When a side is shared out among as many parts as it has pixels, each part is one pixel.
proof fn lemma_whole_part(i: int, len: int)
    requires
        0 <= i < len,
    ensures
        part_start(i, len, len) == i,
        part_end(i, len, len) == i + 1,
{
    assert(i * len / len == i && (i + 1) * len / len == i + 1) by (nonlinear_arith)
        requires
            0 < len,
    ;
}

/// The pixels of a box whose every pixel is black add up to nothing.
pub proof fn law_black_boxes_add_up_to_nothing(
    luma: Seq<u8>,
    w: int,
    h: int,
    x0: int,
    x1: int,
    y0: int,
    y1: int,
)
    requires
        0 <= x0 <= x1 <= w,
        0 <= y0 <= y1 <= h,
        luma.len() == w * h,
        forall|i: int| 0 <= i < luma.len() ==> #[trigger] luma[i] == 0,
    ensures
        box_sum(luma, w, x0, x1, y0, y1) == 0,
{
    lemma_even_box(luma, w, h, x0, x1, y0, y1, 0);
    assert(0 * ((x1 - x0) * (y1 - y0)) == 0) by (nonlinear_arith);
}

/// A row sum changes with a pixel of the row, by as much as the pixel, and with no other.
proof fn lemma_row_sum_update(
    luma: Seq<u8>,
    w: int,
    h: int,
    y: int,
    x0: int,
    x1: int,
    px: int,
    py: int,
    v: u8,
)
    requires
        0 <= x0 <= x1 <= w,
        0 <= y < h,
        luma.len() == w * h,
        0 <= px < w,
        0 <= py < h,
    ensures
        row_sum(luma.update(py * w + px, v), w, y, x0, x1) == row_sum(luma, w, y, x0, x1) + if y == py
            && x0 <= px < x1 {
            v - luma[py * w + px]
        } else {
            0
        },
    decreases x1 - x0,
{
    if x0 < x1 {
        lemma_row_sum_update(luma, w, h, y, x0, x1 - 1, px, py, v);
        lemma_at(w, h, x1 - 1, y);
        lemma_at(w, h, px, py);
    }
}

/// Every pixel of a box counts once in its sum, and no pixel outside it counts: where one pixel of the
/// plane changes, the sum changes by as much if the pixel lies in the box, and else not at all.
pub proof fn law_every_pixel_of_a_box_counts_once(
    luma: Seq<u8>,
    w: int,
    h: int,
    x0: int,
    x1: int,
    y0: int,
    y1: int,
    px: int,
    py: int,
    v: u8,
)
    requires
        0 <= x0 <= x1 <= w,
        0 <= y0 <= y1 <= h,
        luma.len() == w * h,
        0 <= px < w,
        0 <= py < h,
    ensures
        box_sum(luma.update(py * w + px, v), w, x0, x1, y0, y1) == box_sum(luma, w, x0, x1, y0, y1)
            + if x0 <= px < x1 && y0 <= py < y1 {
            v - luma[py * w + px]
        } else {
            0
        },
    decreases y1 - y0,
{
    if y0 < y1 {
        law_every_pixel_of_a_box_counts_once(luma, w, h, x0, x1, y0, y1 - 1, px, py, v);
        lemma_row_sum_update(luma, w, h, y1 - 1, x0, x1, px, py, v);
    }
}

/// The thumbnail is 480 columns wide, or as wide as the frame where that is less, and as high as keeps
/// the aspect, rounded down but never nothing. Each of its pixels is the mean, rounded down, of a box of
/// the frame that begins at its share of the way along each side and ends where the next begins.
pub proof fn law_thumbnail_pixels_are_means(luma: Seq<u8>, w: int, h: int, x: int, y: int)
    requires
        0 < w,
        0 < h,
        luma.len() == w * h,
    ensures
        ({
            let pw = if w < 480 {
                w
            } else {
                480
            };
            let ph = if pw * h < w {
                1
            } else {
                pw * h / w
            };
            &&& preview_w(w) == pw
            &&& preview_h(w, h) == ph
            &&& thumbnail(luma, w, h).len() == pw * ph
            &&& 0 <= x < pw && 0 <= y < ph ==> {
                let (x0, y0) = (x * w / pw, y * h / ph);
                let x1 = (x + 1) * w / pw;
                let y1 = (y + 1) * h / ph;
                let r = thumbnail(luma, w, h)[y * pw + x];
                let n = (x1 - x0) * (y1 - y0);
                let sum = box_sum(luma, w, x0, x1, y0, y1);
                &&& x0 < x1 <= w
                &&& y0 < y1 <= h
                &&& r * n <= sum < (r + 1) * n
            }
        }),
{
    let pw = preview_w(w);
    let ph = preview_h(w, h);
    lemma_preview_size(w, h);
    assert(pw * h / w >= 1 <==> pw * h >= w) by (nonlinear_arith)
        requires
            w > 0,
    ;
    assert(0 <= pw * ph) by (nonlinear_arith)
        requires
            0 <= pw,
            0 <= ph,
    ;
    if 0 <= x < pw && 0 <= y < ph {
        lemma_at(pw, ph, x, y);
        lemma_part(x, pw, w);
        lemma_part(y, ph, h);
        lemma_parts_follow(x, pw, w);
        lemma_parts_follow(y, ph, h);
        let (x0, x1) = (x * w / pw, (x + 1) * w / pw);
        let (y0, y1) = (y * h / ph, (y + 1) * h / ph);
        let n = (x1 - x0) * (y1 - y0);
        let sum = box_sum(luma, w, x0, x1, y0, y1);
        lemma_box_sum_bound(luma, w, x0, x1, y0, y1);
        assert(n >= 1) by (nonlinear_arith)
            requires
                n == (x1 - x0) * (y1 - y0),
                x1 - x0 >= 1,
                y1 - y0 >= 1,
        ;
        let r = sum / n;
        assert(0 <= r <= 255 && r * n <= sum < (r + 1) * n) by (nonlinear_arith)
            requires
                r == sum / n,
                n >= 1,
                0 <= sum <= 255 * n,
        ;
    }
}

/// Where there are no more parts than pixels, a part ends where the next begins.
proof fn lemma_parts_follow(i: int, parts: int, len: int)
    requires
        0 <= i < parts <= len,
    ensures
        i * len / parts < (i + 1) * len / parts <= len,
{
    assert((i + 1) * len == i * len + len) by (nonlinear_arith);
    assert(i * len / parts + 1 <= (i * len + len) / parts) by (nonlinear_arith)
        requires
            0 < parts <= len,
            0 <= i * len,
    ;
    lemma_mul_inequality(i + 1, parts, len);
    assert((i + 1) * len / parts <= len) by (nonlinear_arith)
        requires
            0 < parts,
            (i + 1) * len <= parts * len,
    ;
    assert(0 <= i * len) by (nonlinear_arith)
        requires
            0 <= i,
            0 <= len,
    ;
}

/// A preview carries the size, the orientation and every pixel of the thumbnail.
pub proof fn law_preview_carries_the_thumbnail(
    p: PreviewData,
    luma: Seq<u8>,
    w: int,
    h: int,
    orientation: i32,
)
    requires
        is_preview(p, luma, w, h, orientation),
    ensures
        p.w == preview_w(w),
        p.h == preview_h(w, h),
        p.orientation == orientation,
        forall|other: Seq<u8>| #[trigger] base64_text(other) == p.gray@ ==> other == thumbnail(luma, w, h),
{
    assert forall|other: Seq<u8>| #[trigger] base64_text(other) == p.gray@ implies other == thumbnail(
        luma,
        w,
        h,
    ) by {
        law_base64_keeps_everything(other, thumbnail(luma, w, h));
    }
    assert(base64_text(thumbnail(luma, w, h)) == p.gray@);
}

/// Every frame that has pixels, all of them there, has a preview, unless its thumbnail would not fit in
/// memory.
pub proof fn law_whole_frames_have_previews(len: int, w: int, h: int)
    requires
        0 < w,
        0 <= h,
        w * h <= len,
        480 * (h + 1) <= isize::MAX / 2,
    ensures
        can_preview(len, w, h),
{
    lemma_preview_size(w, h);
    let (pw, ph) = (preview_w(w), preview_h(w, h));
    assert(pw * ph <= 480 * (h + 1)) by (nonlinear_arith)
        requires
            0 <= pw <= 480,
            0 <= ph <= h + 1,
    ;
}

/// A frame without columns, or one that lacks pixels, has no preview.
pub proof fn law_broken_frames_have_no_preview(len: int, w: int, h: int)
    requires
        w == 0 || len < w * h,
    ensures
        !can_preview(len, w, h),
{
}

} // verus!
