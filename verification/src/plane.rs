//! From the camera's image plane, whose rows may be padded, to a luma plane of its own.

use crate::frames::LumaFrame;
use crate::image::{
    center_square, crop_fits, crop_region, cropped, is_crop_fit, law_cropping_moves_pixels, least,
};
use crate::preview::greatest;
use crate::raster::{at, lemma_at, lemma_raster_ext};
use vstd::arithmetic::mul::lemma_mul_inequality;
use vstd::prelude::*;

verus! {

/// How many bytes there are from one row of a plane to the next: no fewer than a row has pixels.
pub open spec fn plane_stride(width: int, row_stride: int) -> int {
    greatest(row_stride, width)
}

/// How many columns are kept of a plane: a grid lives in the centred square alone.
pub open spec fn kept_w(width: int, height: int, grid: int) -> int {
    if grid >= 2 {
        least(width, height)
    } else {
        width
    }
}

/// How many rows are kept of a plane.
pub open spec fn kept_h(width: int, height: int, grid: int) -> int {
    if grid >= 2 {
        least(width, height)
    } else {
        height
    }
}

/// The pixels that are kept of a plane, without the padding of its rows.
pub open spec fn kept_pixels(src: Seq<u8>, width: int, height: int, row_stride: int, grid: int) -> Seq<
    u8,
> {
    let cw = kept_w(width, height, grid);
    let ch = kept_h(width, height, grid);
    cropped(src, plane_stride(width, row_stride), (width - cw) / 2, (height - ch) / 2, cw, ch)
}

/// Whether the pixels that are kept can be copied on this machine.
pub open spec fn plane_fits(width: int, height: int, row_stride: int, grid: int) -> bool {
    let cw = kept_w(width, height, grid);
    let ch = kept_h(width, height, grid);
    crop_fits(plane_stride(width, row_stride), (width - cw) / 2, (height - ch) / 2, cw, ch)
}

/// Whether the pixels that are kept can be copied on this machine.
pub fn is_plane_fit(width: i32, height: i32, row_stride: i32, grid: usize) -> (b: bool)
    requires
        width > 0,
        height > 0,
    ensures
        b == plane_fits(width as int, height as int, row_stride as int, grid as int),
{
    let w: u32 = width as u32;
    let h: u32 = height as u32;
    let stride: u32 = if row_stride >= width {
        row_stride as u32
    } else {
        w
    };
    let side: u32 = if w <= h {
        w
    } else {
        h
    };
    let (cw, ch): (u32, u32) = if grid >= 2 {
        (side, side)
    } else {
        (w, h)
    };
    is_crop_fit(stride, (w - cw) / 2, (h - ch) / 2, cw, ch)
}

/// Copies the luma plane out of a camera image, or just its centred square where a grid is to be
/// decoded. An image without pixels gives no frame.
pub fn extract_luma(src: &[u8], width: i32, height: i32, row_stride: i32, grid: usize) -> (frame: Option<
    LumaFrame,
>)
    requires
        width > 0 && height > 0 ==> plane_fits(
            width as int,
            height as int,
            row_stride as int,
            grid as int,
        ),
    ensures
        frame is Some <==> width > 0 && height > 0,
        frame matches Some(f) ==> {
            &&& f.luma@ == kept_pixels(
                src@,
                width as int,
                height as int,
                row_stride as int,
                grid as int,
            )
            &&& f.w == kept_w(width as int, height as int, grid as int)
            &&& f.h == kept_h(width as int, height as int, grid as int)
        },
{
    if width <= 0 || height <= 0 {
        return None;
    }
    let w: usize = width as usize;
    let h: usize = height as usize;
    let stride: usize = if row_stride >= width {
        row_stride as usize
    } else {
        w
    };
    let side: usize = if w <= h {
        w
    } else {
        h
    };
    let (cw, ch): (usize, usize) = if grid >= 2 {
        (side, side)
    } else {
        (w, h)
    };
    let luma: Vec<u8> = crop_region(src, stride, (w - cw) / 2, (h - ch) / 2, cw, ch);
    Some(LumaFrame { luma, w: cw as u32, h: ch as u32 })
}

/// A grid's frame is the centred square of the frame that would be kept without one, wherever all rows
/// of the plane are there.
pub proof fn law_grid_keeps_the_centre(src: Seq<u8>, width: int, height: int, row_stride: int, grid: int)
    requires
        0 < width,
        0 < height,
        2 <= grid,
        at(plane_stride(width, row_stride), 0, height - 1) + width <= src.len(),
    ensures
        kept_pixels(src, width, height, row_stride, grid) == center_square(
            kept_pixels(src, width, height, row_stride, 1),
            width,
            height,
        ),
{
    let stride = plane_stride(width, row_stride);
    let s = least(width, height);
    let x0 = (width - s) / 2;
    let y0 = (height - s) / 2;
    let tight = kept_pixels(src, width, height, row_stride, 1);
    let p = |x: int, y: int|
        if at(stride, x0, y0 + y) + s <= src.len() {
            src[at(stride, x0 + x, y0 + y)]
        } else {
            0u8
        };
    let q = |x: int, y: int|
        if at(width, x0, y0 + y) + s <= tight.len() {
            tight[at(width, x0 + x, y0 + y)]
        } else {
            0u8
        };
    assert(0 <= width * height) by (nonlinear_arith)
        requires
            0 < width,
            0 < height,
    ;
    assert forall|x: int, y: int| 0 <= x < s && 0 <= y < s implies #[trigger] p(x, y) == q(x, y) by {
        lemma_at(width, height, x0 + s - 1, y0 + y);
        lemma_at(width, height, x0 + x, y0 + y);
        lemma_mul_inequality(y0 + y, height - 1, stride);
    }
    lemma_raster_ext(s, s, p, q);
}

/// Without a grid every pixel of the plane is kept, and the padding of its rows is not: the pixel in
/// column `x` of row `y` stands `y` strides further on. A row that the plane does not hold whole is
/// black.
pub proof fn law_padding_is_left_out(
    src: Seq<u8>,
    width: int,
    height: int,
    row_stride: int,
    grid: int,
    x: int,
    y: int,
)
    requires
        grid <= 1,
        0 <= x < width,
        0 <= y < height,
    ensures
        kept_w(width, height, grid) == width,
        kept_h(width, height, grid) == height,
        kept_pixels(src, width, height, row_stride, grid).len() == width * height,
        ({
            let stride = if row_stride > width {
                row_stride
            } else {
                width
            };
            kept_pixels(src, width, height, row_stride, grid)[y * width + x] == if y * stride + width
                <= src.len() {
                src[y * stride + x]
            } else {
                0u8
            }
        }),
{
    let stride = plane_stride(width, row_stride);
    law_cropping_moves_pixels(src, stride, 0, 0, width, height, x, y);
}

/// With a grid the centred square is kept, as wide and as high as the shorter side.
pub proof fn law_grid_keeps_a_centred_square(
    src: Seq<u8>,
    width: int,
    height: int,
    row_stride: int,
    grid: int,
    s: int,
    x: int,
    y: int,
)
    requires
        2 <= grid,
        s <= width,
        s <= height,
        s == width || s == height,
        0 <= x < s,
        0 <= y < s,
    ensures
        kept_w(width, height, grid) == s,
        kept_h(width, height, grid) == s,
        kept_pixels(src, width, height, row_stride, grid).len() == s * s,
        ({
            let stride = if row_stride > width {
                row_stride
            } else {
                width
            };
            let row = ((height - s) / 2 + y) * stride + (width - s) / 2;
            kept_pixels(src, width, height, row_stride, grid)[y * s + x] == if row + s <= src.len() {
                src[row + x]
            } else {
                0u8
            }
        }),
{
    let stride = plane_stride(width, row_stride);
    law_cropping_moves_pixels(src, stride, (width - s) / 2, (height - s) / 2, s, s, x, y);
}

/// A plane whose rows fit in memory with their padding can always be copied.
pub proof fn law_planes_in_memory_can_be_copied(width: int, height: int, row_stride: int, grid: int)
    requires
        0 < width,
        0 < height,
        height * row_stride <= isize::MAX,
        height * width <= isize::MAX,
    ensures
        plane_fits(width, height, row_stride, grid),
{
    let stride = plane_stride(width, row_stride);
    let (cw, ch) = (kept_w(width, height, grid), kept_h(width, height, grid));
    let (x0, y0) = ((width - cw) / 2, (height - ch) / 2);
    assert(height * stride <= isize::MAX);
    assert(cw * ch <= height * width) by (nonlinear_arith)
        requires
            0 < cw <= width,
            0 < ch <= height,
    ;
    assert((y0 + ch - 1) * stride + stride <= height * stride) by (nonlinear_arith)
        requires
            y0 + ch <= height,
            0 < stride,
    ;
    assert(height <= height * stride) by (nonlinear_arith)
        requires
            0 < stride,
            0 < height,
    ;
}

} // verus!
