//! From a luma plane to the payloads of the QR codes in it.
//!
//! A reader does not always return, so decoding is cut where it reads: it hands out an image, and goes
//! on with what the reader reports.

use crate::image::{
    center_fits, center_square, crop_center_square, crop_fits, crop_region, cropped, downscale2,
    halved, is_crop_fit, law_centre_square_is_centred, law_cropping_moves_pixels,
    law_halving_takes_means, law_padding_moves_pixels, law_sharpening_weighs_neighbours, least,
    pad_white, padded, sharpen3x3, sharpened,
};
use crate::payload::{
    byte_strings, extract_payload, law_text_gives_a_byte_for_each_character, payloads, read_view, QrRead,
};
use crate::preview::greatest;
use crate::raster::{at, lemma_at, lemma_position};
use vstd::arithmetic::div_mod::lemma_fundamental_div_mod;
use vstd::arithmetic::mul::lemma_mul_inequality;
use vstd::prelude::*;

verus! {

/// From this side on a single code is read at half size: it is sampled finely enough to spare it.
pub const DOWNSCALE_MIN: usize = 1400;

/// Readers are never told to spend longer on an image: a bounded effort keeps the workers going.
pub const TRY_HARDER: bool = false;

/// The sharpened plane where sharpening is asked for, or else the plane itself.
pub open spec fn maybe_sharpened(luma: Seq<u8>, w: int, h: int, sharpen: bool) -> Seq<u8> {
    if sharpen {
        sharpened(luma, w, h)
    } else {
        luma
    }
}

/// The side of the centred square that is read first, after any halving.
pub open spec fn work_side(w: int, h: int) -> int {
    let side = least(w, h);
    if side >= DOWNSCALE_MIN {
        side / 2
    } else {
        side
    }
}

/// How wide a quiet zone goes round a square of side `n`.
pub open spec fn quiet_zone(n: int) -> int {
    greatest(n / 12, 24)
}

/// The side of the first image that is read for a single code.
pub open spec fn primary_side(w: int, h: int) -> int {
    work_side(w, h) + 2 * quiet_zone(work_side(w, h))
}

/// The first image that is read for a single code: the centred square, halved where it is large,
/// sharpened where asked for, in a quiet zone of its own.
pub open spec fn primary_image(luma: Seq<u8>, w: int, h: int, sharpen: bool) -> Seq<u8> {
    let side = least(w, h);
    let n = work_side(w, h);
    let square = center_square(luma, w, h);
    let work = if side >= DOWNSCALE_MIN {
        halved(square, side, side)
    } else {
        square
    };
    padded(maybe_sharpened(work, n, n, sharpen), n, n, quiet_zone(n))
}

/// The width of the second image that is read for a single code.
pub open spec fn whole_w(w: int) -> int {
    if w >= DOWNSCALE_MIN {
        w / 2
    } else {
        w
    }
}

/// The height of the second image that is read for a single code.
pub open spec fn whole_h(w: int, h: int) -> int {
    if w >= DOWNSCALE_MIN {
        h / 2
    } else {
        h
    }
}

/// The second image that is read for a single code, where the first gave none: the whole frame,
/// halved where it is wide, sharpened where asked for.
pub open spec fn whole_image(luma: Seq<u8>, w: int, h: int, sharpen: bool) -> Seq<u8> {
    let work = if w >= DOWNSCALE_MIN {
        halved(luma, w, h)
    } else {
        luma
    };
    maybe_sharpened(work, whole_w(w), whole_h(w, h), sharpen)
}

/// The side of the cells when the centred square is tiled `grid` by `grid`.
pub open spec fn cell_side(w: int, h: int, grid: int) -> int {
    least(w, h) / grid
}

/// Where tile `g` of a side of `len` pixels begins: at its cell, less an eighth of a cell, but not
/// before the frame does.
pub open spec fn tile_start(len: int, side: int, grid: int, g: int) -> int {
    let cell = side / grid;
    greatest((len - side) / 2 + g * cell - cell / 8, 0)
}

/// Where tile `g` of a side of `len` pixels ends: at its cell's end and an eighth of a cell more,
/// but not after the frame does.
pub open spec fn tile_end(len: int, side: int, grid: int, g: int) -> int {
    let cell = side / grid;
    least((len - side) / 2 + g * cell + cell + cell / 8, len)
}

/// How long tile `g` is along a side of `len` pixels.
pub open spec fn tile_len(len: int, side: int, grid: int, g: int) -> int {
    tile_end(len, side, grid, g) - tile_start(len, side, grid, g)
}

/// The image of the tile in column `gx` of row `gy`.
pub open spec fn tile_image(
    luma: Seq<u8>,
    w: int,
    h: int,
    grid: int,
    gx: int,
    gy: int,
    sharpen: bool,
) -> Seq<u8> {
    let side = least(w, h);
    let cw = tile_len(w, side, grid, gx);
    let ch = tile_len(h, side, grid, gy);
    maybe_sharpened(
        cropped(luma, w, tile_start(w, side, grid, gx), tile_start(h, side, grid, gy), cw, ch),
        cw,
        ch,
        sharpen,
    )
}

/// Whether the first image of a frame for a single code can be made on this machine.
pub open spec fn first_fits(w: int, h: int) -> bool {
    &&& center_fits(w, h)
    &&& primary_side(w, h) * primary_side(w, h) <= isize::MAX
}

/// Whether the second image of a frame for a single code can be made: every pixel that is averaged is
/// there, and where the frame itself is sharpened it has as many pixels as its size says.
pub open spec fn second_fits(len: int, w: int, h: int, sharpen: bool) -> bool {
    if w >= DOWNSCALE_MIN {
        h >= 2 ==> at(w, 2 * (w / 2) - 1, 2 * (h / 2) - 1) < len
    } else {
        sharpen && w >= 3 && h >= 3 ==> w * h == len
    }
}

/// Whether the image of the tile in column `gx` of row `gy` can be made on this machine.
pub open spec fn tile_fits(w: int, h: int, grid: int, gx: int, gy: int) -> bool {
    let side = least(w, h);
    crop_fits(
        w,
        tile_start(w, side, grid, gx),
        tile_start(h, side, grid, gy),
        tile_len(w, side, grid, gx),
        tile_len(h, side, grid, gy),
    )
}

/// How many tiles there are. A square with fewer pixels than the grid has cells on a side has none.
pub open spec fn tile_count(w: int, h: int, grid: int) -> int {
    if cell_side(w, h, grid) > 0 {
        grid * grid
    } else {
        0
    }
}

/// Whether what a reader reports carries a payload.
pub open spec fn carries(read: Option<(Option<Seq<Seq<u8>>>, Seq<char>)>) -> bool {
    read is Some && payloads(read->0).len() > 0
}

/// What reading a single code comes to: the first answer's payloads where it has any, or else the
/// second answer's; and whether a code was found.
pub open spec fn single_outcome(
    first: Option<(Option<Seq<Seq<u8>>>, Seq<char>)>,
    second: Option<(Option<Seq<Seq<u8>>>, Seq<char>)>,
) -> (Seq<Seq<u8>>, int) {
    if carries(first) {
        (payloads(first->0), 1)
    } else if second is Some {
        (payloads(second->0), 1)
    } else {
        (Seq::empty(), 0)
    }
}

/// The payload that a tile gives, where it gives one that is not empty.
pub open spec fn tile_payload(read: Option<(Option<Seq<Seq<u8>>>, Seq<char>)>) -> Option<Seq<u8>> {
    if read is Some && payloads(read->0).len() > 0 && payloads(read->0).last().len() > 0 {
        Some(payloads(read->0).last())
    } else {
        None
    }
}

/// The payloads that the tiles give, in the order of the tiles.
pub open spec fn tile_payloads(reads: Seq<Option<(Option<Seq<Seq<u8>>>, Seq<char>)>>) -> Seq<
    Seq<u8>,
>
    decreases reads.len(),
{
    if reads.len() == 0 {
        Seq::empty()
    } else {
        let before = tile_payloads(reads.drop_last());
        match tile_payload(reads.last()) {
            Some(p) => before.push(p),
            None => before,
        }
    }
}

/// What a frame decodes to.
pub struct Decoded {
    /// The payloads of its codes.
    pub payloads: Vec<Vec<u8>>,
    /// How many images were read.
    pub attempts: usize,
    /// How many codes were found. A single code may be found without a payload; tiles count where
    /// they give one.
    pub detected: usize,
}

/// What is to be done next to decode a frame.
pub enum DecodeStep {
    /// Read the image, of this width and height, with one black point for the whole of it.
    ReadGlobal(Vec<u8>, u32, u32),
    /// Read the image, of this width and height, with black points of its parts.
    ReadHybrid(Vec<u8>, u32, u32),
    /// The frame is decoded.
    Done(Decoded),
    /// The next image cannot be made of this frame, or not on this machine: the frame is lost.
    Lost,
}

impl DecodeStep {
    /// Whether an image is to be read.
    pub open spec fn is_read(&self) -> bool {
        self is ReadGlobal || self is ReadHybrid
    }
}

/// A frame, and how it is to be decoded.
pub struct Job {
    pub luma: Seq<u8>,
    pub w: u32,
    pub h: u32,
    /// How many codes stand side by side.
    pub grid: usize,
    /// Whether images are sharpened before they are read.
    pub sharpen: bool,
}

/// Whether a step ends a job with these payloads, attempts and codes found.
pub open spec fn ends_with(step: DecodeStep, found: Seq<Seq<u8>>, attempts: int, detected: int) -> bool {
    &&& step matches DecodeStep::Done(d)
    &&& byte_strings(d.payloads@) == found
    &&& d.attempts == attempts
    &&& d.detected == detected
}

/// Whether `step` is what comes next for a single code, once the reader reported `reads`: the first
/// image is read, and the whole frame only where the first gave no payload.
pub open spec fn is_single_step(
    step: DecodeStep,
    job: Job,
    reads: Seq<Option<(Option<Seq<Seq<u8>>>, Seq<char>)>>,
) -> bool {
    let (w, h) = (job.w as int, job.h as int);
    if reads.len() == 0 {
        if first_fits(w, h) {
            &&& step matches DecodeStep::ReadGlobal(image, iw, ih)
            &&& image@ == primary_image(job.luma, w, h, job.sharpen)
            &&& iw == primary_side(w, h)
            &&& ih == primary_side(w, h)
        } else {
            step is Lost
        }
    } else if reads.len() == 1 && !carries(reads[0]) {
        if second_fits(job.luma.len() as int, w, h, job.sharpen) {
            &&& step matches DecodeStep::ReadGlobal(image, iw, ih)
            &&& image@ == whole_image(job.luma, w, h, job.sharpen)
            &&& iw == whole_w(w)
            &&& ih == whole_h(w, h)
        } else {
            step is Lost
        }
    } else {
        let second = if reads.len() >= 2 {
            reads[1]
        } else {
            None
        };
        let (found, detected) = single_outcome(reads[0], second);
        ends_with(step, found, reads.len() as int, detected)
    }
}

/// Whether `step` is what comes next for a grid of codes, once the reader reported `reads`: the tiles
/// are read one after the other, row by row.
pub open spec fn is_grid_step(
    step: DecodeStep,
    job: Job,
    reads: Seq<Option<(Option<Seq<Seq<u8>>>, Seq<char>)>>,
) -> bool {
    let (w, h, grid) = (job.w as int, job.h as int, job.grid as int);
    let side = least(w, h);
    let k = reads.len() as int;
    if k < tile_count(w, h, grid) {
        if tile_fits(w, h, grid, k % grid, k / grid) {
            &&& step matches DecodeStep::ReadHybrid(image, iw, ih)
            &&& image@ == tile_image(job.luma, w, h, grid, k % grid, k / grid, job.sharpen)
            &&& iw == tile_len(w, side, grid, k % grid)
            &&& ih == tile_len(h, side, grid, k / grid)
        } else {
            step is Lost
        }
    } else {
        let found = tile_payloads(reads);
        ends_with(step, found, k, found.len() as int)
    }
}

/// Whether `step` is what comes next for a job, once the reader reported `reads`.
pub open spec fn is_step(
    step: DecodeStep,
    job: Job,
    reads: Seq<Option<(Option<Seq<Seq<u8>>>, Seq<char>)>>,
) -> bool {
    if job.grid <= 1 {
        is_single_step(step, job, reads)
    } else {
        is_grid_step(step, job, reads)
    }
}

/// Whether a job has an image to be read, once the reader reported `reads`.
pub open spec fn awaits_read(job: Job, reads: Seq<Option<(Option<Seq<Seq<u8>>>, Seq<char>)>>) -> bool {
    exists|step: DecodeStep| #[trigger] is_step(step, job, reads) && step.is_read()
}

/// Whether a job comes to the point where the reader has reported `reads`: an image was handed out
/// for each of them.
pub open spec fn reachable(job: Job, reads: Seq<Option<(Option<Seq<Seq<u8>>>, Seq<char>)>>) -> bool {
    forall|k: int| 0 <= k < reads.len() ==> awaits_read(job, #[trigger] reads.take(k))
}

/// The payloads that the tiles give, in the order of the tiles; empty ones are passed over.
pub fn collect_tiles(reads: &Vec<Option<QrRead>>) -> (out: Vec<Vec<u8>>)
    ensures
        byte_strings(out@) == tile_payloads(reads@.map_values(|r: Option<QrRead>| read_view(r))),
{
    let mut out: Vec<Vec<u8>> = Vec::new();
    let ghost views = reads@.map_values(|r: Option<QrRead>| read_view(r));
    assert(byte_strings(out@) =~= tile_payloads(views.take(0)));
    for i in 0..reads.len()
        invariant
            views == reads@.map_values(|r: Option<QrRead>| read_view(r)),
            byte_strings(out@) == tile_payloads(views.take(i as int)),
    {
        let ghost before = out@;
        assert(views.take(i + 1).drop_last() =~= views.take(i as int));
        assert(views.take(i + 1).last() == read_view(reads@[i as int]));
        if let Some(read) = &reads[i] {
            let mut found: Vec<Vec<u8>> = extract_payload(read);
            let ghost all = found@;
            assert(byte_strings(all) == payloads(read@));
            if let Some(bytes) = found.pop() {
                assert(payloads(read@).last() == bytes@);
                if bytes.len() > 0 {
                    out.push(bytes);
                    assert(byte_strings(out@) =~= byte_strings(before).push(bytes@));
                }
            }
        }
    }
    assert(views.take(reads@.len() as int) =~= views);
    out
}

/// What reading a single code comes to, given what the reader reported: the first answer's payloads
/// where it has any, or else the second answer's; and whether a code was found.
pub fn settle_single(first: &Option<QrRead>, second: &Option<QrRead>) -> (r: (Vec<Vec<u8>>, usize))
    ensures
        (byte_strings(r.0@), r.1 as int) == single_outcome(read_view(*first), read_view(*second)),
{
    if let Some(read) = first {
        let found: Vec<Vec<u8>> = extract_payload(read);
        assert(byte_strings(found@).len() == found@.len());
        if found.len() > 0 {
            return (found, 1);
        }
    }
    match second {
        Some(read) => (extract_payload(read), 1),
        None => {
            let none: Vec<Vec<u8>> = Vec::new();
            assert(byte_strings(none@) =~= Seq::empty());
            (none, 0)
        },
    }
}

/// A tile holds its cell whole, and stays inside the frame.
pub proof fn law_tile_holds_its_cell(len: int, side: int, grid: int, g: int)
    requires
        0 <= side <= len,
        0 <= g < grid,
        side / grid > 0,
    ensures
        0 <= g * (side / grid),
        (len - side) / 2 + g * (side / grid) + side / grid <= len,
        0 <= tile_start(len, side, grid, g) <= (len - side) / 2 + g * (side / grid),
        (len - side) / 2 + g * (side / grid) + side / grid <= tile_end(len, side, grid, g) <= len,
{
    let cell = side / grid;
    assert(grid * cell <= side) by (nonlinear_arith)
        requires
            cell == side / grid,
            grid > 0,
            side >= 0,
    ;
    lemma_mul_inequality(g + 1, grid, cell);
    assert((g + 1) * cell == g * cell + cell) by (nonlinear_arith);
    assert(0 <= g * cell) by (nonlinear_arith)
        requires
            0 <= g,
            0 <= cell,
    ;
}

/// Computes where tile `g` of a side of `len` pixels begins and ends.
fn tile_span(len: u32, side: u32, grid: usize, g: usize) -> (r: (u32, u32))
    requires
        side <= len,
        g < grid,
        side as int / grid as int > 0,
    ensures
        r.0 == tile_start(len as int, side as int, grid as int, g as int),
        r.1 == tile_end(len as int, side as int, grid as int, g as int),
        r.0 < r.1 <= len,
{
    proof {
        law_tile_holds_its_cell(len as int, side as int, grid as int, g as int);
    }
    let cell: u64 = side as u64 / grid as u64;
    let overlap: u64 = cell / 8;
    let from: u64 = (len - side) as u64 / 2 + g as u64 * cell;
    let to: u64 = from + cell;
    let start: u64 = if from >= overlap {
        from - overlap
    } else {
        0
    };
    let end: u64 = if len as u64 - to <= overlap {
        len as u64
    } else {
        to + overlap
    };
    (start as u32, end as u32)
}

/// Makes the first image that is read for a single code. Returns it with its side.
fn first_image(luma: &[u8], w: usize, h: usize, sharpen: bool) -> (r: (Vec<u8>, usize))
    requires
        first_fits(w as int, h as int),
    ensures
        r.0@ == primary_image(luma@, w as int, h as int, sharpen),
        r.1 == primary_side(w as int, h as int),
{
    let len: usize = luma.len();
    let (square, side): (Vec<u8>, usize) = crop_center_square(luma, w, h);
    let (work, n): (Vec<u8>, usize) = if side >= DOWNSCALE_MIN {
        proof {
            lemma_at(side as int, side as int, 2 * (side / 2) - 1, 2 * (side / 2) - 1);
        }
        let (half, n, _m): (Vec<u8>, usize, usize) = downscale2(square.as_slice(), side, side);
        (half, n)
    } else {
        (square, side)
    };
    assert(0 <= n * n) by (nonlinear_arith);
    let sharp: Vec<u8> = if sharpen {
        sharpen3x3(work.as_slice(), n, n)
    } else {
        work
    };
    let twelfth: usize = n / 12;
    let pad: usize = if twelfth >= 24 {
        twelfth
    } else {
        24
    };
    let (image, bw, _bh): (Vec<u8>, usize, usize) = pad_white(sharp.as_slice(), n, n, pad);
    (image, bw)
}

/// Makes the second image that is read for a single code. Returns it with its width and height.
fn second_image(luma: &[u8], w: usize, h: usize, sharpen: bool) -> (r: (Vec<u8>, usize, usize))
    requires
        second_fits(luma@.len() as int, w as int, h as int, sharpen),
    ensures
        r.0@ == whole_image(luma@, w as int, h as int, sharpen),
        r.1 == whole_w(w as int),
        r.2 == whole_h(w as int, h as int),
{
    if w >= DOWNSCALE_MIN {
        let (half, fw, fh): (Vec<u8>, usize, usize) = downscale2(luma, w, h);
        assert(0 <= fw * fh) by (nonlinear_arith);
        let image: Vec<u8> = if sharpen {
            sharpen3x3(half.as_slice(), fw, fh)
        } else {
            half
        };
        (image, fw, fh)
    } else {
        let image: Vec<u8> = if sharpen {
            sharpen3x3(luma, w, h)
        } else {
            vstd::slice::slice_to_vec(luma)
        };
        (image, w, h)
    }
}

/// Whether the first image of a frame for a single code can be made on this machine.
fn is_first_fit(w: u32, h: u32) -> (b: bool)
    ensures
        b == first_fits(w as int, h as int),
{
    let side: u32 = if w <= h {
        w
    } else {
        h
    };
    let n: u64 = if side >= DOWNSCALE_MIN as u32 {
        side as u64 / 2
    } else {
        side as u64
    };
    let pad: u64 = if n / 12 >= 24 {
        n / 12
    } else {
        24
    };
    let whole: u64 = n + 2 * pad;
    assert(0 <= whole * whole <= u64::MAX) by (nonlinear_arith)
        requires
            whole <= u32::MAX,
    ;
    is_crop_fit(w, (w - side) / 2, (h - side) / 2, side, side) && whole * whole <= isize::MAX as u64
}

/// Whether the second image of a frame for a single code can be made.
fn is_second_fit(len: usize, width: u32, height: u32, sharpen: bool) -> (b: bool)
    ensures
        b == second_fits(len as int, width as int, height as int, sharpen),
{
    let w: u64 = width as u64;
    let h: u64 = height as u64;
    proof {
        assert(w * h <= u32::MAX * u32::MAX) by (nonlinear_arith)
            requires
                w <= u32::MAX,
                h <= u32::MAX,
        ;
        if w >= 2 && h >= 2 {
            lemma_at(w as int, h as int, 2 * (w / 2) - 1, 2 * (h / 2) - 1);
        }
    }
    if w >= DOWNSCALE_MIN as u64 {
        h < 2 || (2 * (h / 2) - 1) * w + 2 * (w / 2) - 1 < len as u64
    } else {
        !sharpen || w < 3 || h < 3 || w * h == len as u64
    }
}

/// Makes the image of the tile in column `gx` of row `gy`, and returns it with its width and height;
/// nothing where it cannot be made on this machine.
fn tile(
    luma: &[u8],
    w: u32,
    h: u32,
    grid: usize,
    gx: usize,
    gy: usize,
    sharpen: bool,
) -> (r: Option<(Vec<u8>, u32, u32)>)
    requires
        cell_side(w as int, h as int, grid as int) > 0,
        gx < grid,
        gy < grid,
    ensures
        r is Some <==> tile_fits(w as int, h as int, grid as int, gx as int, gy as int),
        r matches Some((image, cw, ch)) ==> {
            &&& image@ == tile_image(
                luma@,
                w as int,
                h as int,
                grid as int,
                gx as int,
                gy as int,
                sharpen,
            )
            &&& cw == tile_len(w as int, least(w as int, h as int), grid as int, gx as int)
            &&& ch == tile_len(h as int, least(w as int, h as int), grid as int, gy as int)
        },
{
    let side: u32 = if w <= h {
        w
    } else {
        h
    };
    let (x0, x1): (u32, u32) = tile_span(w, side, grid, gx);
    let (y0, y1): (u32, u32) = tile_span(h, side, grid, gy);
    let cw: u32 = x1 - x0;
    let ch: u32 = y1 - y0;
    if !is_crop_fit(w, x0, y0, cw, ch) {
        return None;
    }
    assert(0 <= cw * ch) by (nonlinear_arith);
    let crop: Vec<u8> = crop_region(
        luma,
        w as usize,
        x0 as usize,
        y0 as usize,
        cw as usize,
        ch as usize,
    );
    let image: Vec<u8> = if sharpen {
        sharpen3x3(crop.as_slice(), cw as usize, ch as usize)
    } else {
        crop
    };
    Some((image, cw, ch))
}

/// Whether what a reader reports carries a payload.
fn carries_payload(read: &Option<QrRead>) -> (b: bool)
    ensures
        b == carries(read_view(*read)),
{
    match read {
        Some(q) => match &q.segments {
            Some(segments) => segments.len() > 0 || q.text.len() > 0,
            None => q.text.len() > 0,
        },
        None => false,
    }
}

/// What readers reported, by contents.
pub open spec fn read_views(reads: Seq<Option<QrRead>>) -> Seq<
    Option<(Option<Seq<Seq<u8>>>, Seq<char>)>,
> {
    reads.map_values(|r: Option<QrRead>| read_view(r))
}

/// A frame that is being decoded.
pub struct Decoding {
    luma: Vec<u8>,
    w: u32,
    h: u32,
    grid: usize,
    sharpen: bool,
    reads: Vec<Option<QrRead>>,
}

impl Decoding {
    /// The frame, and how it is to be decoded.
    pub closed spec fn job(&self) -> Job {
        Job { luma: self.luma@, w: self.w, h: self.h, grid: self.grid, sharpen: self.sharpen }
    }

    /// What the reader has reported so far.
    pub closed spec fn reads(&self) -> Seq<Option<(Option<Seq<Seq<u8>>>, Seq<char>)>> {
        read_views(self.reads@)
    }

    /// For every report an image was handed out.
    pub open spec fn wf(&self) -> bool {
        reachable(self.job(), self.reads())
    }

    /// Takes what the reader reports of the image that was handed out last: nothing where it finds no
    /// code. Returns what is to be done next.
    pub fn answer(&mut self, read: Option<QrRead>) -> (step: DecodeStep)
        requires
            old(self).wf(),
            awaits_read(old(self).job(), old(self).reads()),
        ensures
            final(self).wf(),
            final(self).job() == old(self).job(),
            final(self).reads() == old(self).reads().push(read_view(read)),
            is_step(step, final(self).job(), final(self).reads()),
            step.is_read() ==> awaits_read(final(self).job(), final(self).reads()),
    {
        let ghost before = self.reads@;
        self.reads.push(read);
        proof {
            let shorter = read_views(before);
            let longer = read_views(self.reads@);
            assert(longer =~= shorter.push(read_view(read)));
            assert forall|k: int| 0 <= k < longer.len() implies awaits_read(
                self.job(),
                #[trigger] longer.take(k),
            ) by {
                if k < shorter.len() {
                    assert(longer.take(k) =~= shorter.take(k));
                } else {
                    assert(longer.take(k) =~= shorter);
                }
            }
        }
        self.step()
    }

    /// What is to be done next.
    fn step(&self) -> (step: DecodeStep)
        ensures
            is_step(step, self.job(), self.reads()),
    {
        assert(self.reads().len() == self.reads@.len());
        if self.grid <= 1 {
            self.single_step()
        } else {
            self.grid_step()
        }
    }

    /// What is to be done next for a single code.
    fn single_step(&self) -> (step: DecodeStep)
        ensures
            is_single_step(step, self.job(), self.reads()),
    {
        let (w, h): (usize, usize) = (self.w as usize, self.h as usize);
        let len: usize = self.luma.len();
        let n: usize = self.reads.len();
        if n == 0 {
            if !is_first_fit(self.w, self.h) {
                return DecodeStep::Lost;
            }
            let (image, side): (Vec<u8>, usize) = first_image(self.luma.as_slice(), w, h, self.sharpen);
            return DecodeStep::ReadGlobal(image, side as u32, side as u32);
        }
        assert(self.reads()[0] == read_view(self.reads@[0]));
        if n == 1 && !carries_payload(&self.reads[0]) {
            if !is_second_fit(len, self.w, self.h, self.sharpen) {
                return DecodeStep::Lost;
            }
            let (image, fw, fh): (Vec<u8>, usize, usize) = second_image(
                self.luma.as_slice(),
                w,
                h,
                self.sharpen,
            );
            return DecodeStep::ReadGlobal(image, fw as u32, fh as u32);
        }
        let (payloads, detected): (Vec<Vec<u8>>, usize) = if n >= 2 {
            assert(self.reads()[1] == read_view(self.reads@[1]));
            settle_single(&self.reads[0], &self.reads[1])
        } else {
            settle_single(&self.reads[0], &None)
        };
        DecodeStep::Done(Decoded { payloads, attempts: n, detected })
    }

    /// What is to be done next for a grid of codes.
    fn grid_step(&self) -> (step: DecodeStep)
        requires
            self.job().grid >= 2,
        ensures
            is_grid_step(step, self.job(), self.reads()),
    {
        let grid: usize = self.grid;
        let k: usize = self.reads.len();
        let side: u32 = if self.w <= self.h {
            self.w
        } else {
            self.h
        };
        assert(0 <= grid * grid <= u128::MAX) by (nonlinear_arith)
            requires
                2 <= grid <= u64::MAX,
        ;
        if side as u64 / grid as u64 > 0 && (k as u128) < grid as u128 * grid as u128 {
            let (gx, gy): (usize, usize) = (k % grid, k / grid);
            assert(gy < grid) by (nonlinear_arith)
                requires
                    gy == k / grid,
                    0 <= k < grid * grid,
                    grid > 0,
            ;
            return match tile(self.luma.as_slice(), self.w, self.h, grid, gx, gy, self.sharpen) {
                Some((image, cw, ch)) => DecodeStep::ReadHybrid(image, cw, ch),
                None => DecodeStep::Lost,
            };
        }
        let payloads: Vec<Vec<u8>> = collect_tiles(&self.reads);
        let detected: usize = payloads.len();
        assert(byte_strings(payloads@).len() == payloads@.len());
        DecodeStep::Done(Decoded { payloads, attempts: k, detected })
    }
}

/// Reads QR codes out of luma planes.
pub struct Decoder;

impl Decoder {
    /// A decoder.
    pub fn new() -> (d: Self)
        ensures
            d == Decoder,
    {
        Decoder
    }

    /// Begins to decode the QR codes of a grayscale frame. Returns the state of it, and what is to be
    /// done first.
    ///
    /// With a `grid` of two or more the centred square is tiled into `grid` by `grid` cells and each
    /// is read on its own, so a frame yields up to `grid * grid` payloads. Each tile reaches an
    /// eighth of a cell past its cell, so a code on a boundary is still seen whole.
    pub fn decode(
        &mut self,
        luma: Vec<u8>,
        width: u32,
        height: u32,
        grid: usize,
        sharpen: bool,
    ) -> (r: (Decoding, DecodeStep))
        ensures
            r.0.wf(),
            r.0.job() == (Job { luma: luma@, w: width, h: height, grid, sharpen }),
            r.0.reads() == Seq::<Option<(Option<Seq<Seq<u8>>>, Seq<char>)>>::empty(),
            is_step(r.1, r.0.job(), r.0.reads()),
            r.1.is_read() ==> awaits_read(r.0.job(), r.0.reads()),
    {
        let decoding: Decoding = Decoding {
            luma,
            w: width,
            h: height,
            grid,
            sharpen,
            reads: Vec::new(),
        };
        assert(decoding.reads() =~= Seq::empty());
        let step: DecodeStep = decoding.step();
        (decoding, step)
    }
}

/// The tiles leave nothing of the cells out: every pixel of a side that lies in a cell lies in the
/// tile of that cell.
pub proof fn law_tiles_cover_the_cells(len: int, side: int, grid: int, p: int)
    requires
        0 <= side <= len,
        0 < grid,
        side / grid > 0,
        (len - side) / 2 <= p < (len - side) / 2 + grid * (side / grid),
    ensures
        exists|g: int|
            0 <= g < grid && #[trigger] tile_start(len, side, grid, g) <= p < tile_end(
                len,
                side,
                grid,
                g,
            ),
{
    let cell = side / grid;
    let offset = p - (len - side) / 2;
    let g = offset / cell;
    lemma_fundamental_div_mod(offset, cell);
    assert(cell * g == g * cell) by (nonlinear_arith);
    assert(0 <= g < grid) by (nonlinear_arith)
        requires
            0 < cell,
            0 <= offset < grid * cell,
            offset == g * cell + offset % cell,
            0 <= offset % cell < cell,
    ;
    law_tile_holds_its_cell(len, side, grid, g);
    assert(tile_start(len, side, grid, g) <= p < tile_end(len, side, grid, g));
}

/// Every payload that the tiles give comes from a tile and is not empty, and no tile gives two.
pub proof fn law_tiles_give_what_they_hold(reads: Seq<Option<(Option<Seq<Seq<u8>>>, Seq<char>)>>)
    ensures
        tile_payloads(reads).len() <= reads.len(),
        forall|i: int|
            0 <= i < tile_payloads(reads).len() ==> (#[trigger] tile_payloads(reads)[i]).len() > 0,
        forall|i: int|
            0 <= i < tile_payloads(reads).len() ==> exists|k: int|
                0 <= k < reads.len() && tile_payload(#[trigger] reads[k]) == Some(
                    #[trigger] tile_payloads(reads)[i],
                ),
    decreases reads.len(),
{
    if reads.len() > 0 {
        let before = reads.drop_last();
        law_tiles_give_what_they_hold(before);
        let all = tile_payloads(reads);
        assert forall|i: int| 0 <= i < all.len() implies exists|k: int|
            0 <= k < reads.len() && tile_payload(#[trigger] reads[k]) == Some(#[trigger] all[i]) by {
            if i < tile_payloads(before).len() {
                assert(all[i] == tile_payloads(before)[i]);
                let k = choose|k: int|
                    0 <= k < before.len() && tile_payload(#[trigger] before[k]) == Some(
                        tile_payloads(before)[i],
                    );
                assert(reads[k] == before[k]);
            } else {
                assert(reads[reads.len() - 1] == reads.last());
            }
        }
    }
}

/// A frame gives no more payloads than codes were found, and no more codes are found than images were
/// read: one image or two for a single code, and one for each cell of a grid.
pub proof fn law_no_more_payloads_than_attempts(
    step: DecodeStep,
    job: Job,
    reads: Seq<Option<(Option<Seq<Seq<u8>>>, Seq<char>)>>,
)
    requires
        reachable(job, reads),
        is_step(step, job, reads),
        step is Done,
    ensures
        step matches DecodeStep::Done(d) && {
            &&& d.payloads@.len() <= d.detected <= d.attempts
            &&& d.attempts == reads.len()
            &&& job.grid <= 1 ==> d.detected <= 1 && d.attempts == if carries(reads[0]) {
                1int
            } else {
                2
            }
            &&& job.grid >= 2 ==> d.attempts == tile_count(
                job.w as int,
                job.h as int,
                job.grid as int,
            )
        },
{
    let d = step->Done_0;
    let n = reads.len() as int;
    assert(byte_strings(d.payloads@).len() == d.payloads@.len());
    if n > 0 {
        assert(awaits_read(job, reads.take(n - 1)));
        law_decoding_ends(job, reads.take(n - 1));
    }
    if job.grid >= 2 {
        law_tiles_give_what_they_hold(reads);
    } else if n == 2 {
        assert(reads.take(1)[0] == reads[0]);
    }
}

/// Decoding ends: an image is handed out only while fewer were read than two for a single code, or
/// than there are cells in the grid.
pub proof fn law_decoding_ends(job: Job, reads: Seq<Option<(Option<Seq<Seq<u8>>>, Seq<char>)>>)
    requires
        awaits_read(job, reads),
    ensures
        job.grid <= 1 ==> reads.len() < 2,
        job.grid >= 2 ==> reads.len() < tile_count(job.w as int, job.h as int, job.grid as int),
{
}

/// A rectangle of a plane that is all there can be copied.
proof fn lemma_inner_crop_fits(w: int, h: int, x0: int, y0: int, cw: int, ch: int)
    requires
        0 <= x0,
        0 <= y0,
        0 < cw,
        0 < ch,
        x0 + cw <= w,
        y0 + ch <= h,
        w * h <= isize::MAX,
    ensures
        crop_fits(w, x0, y0, cw, ch),
{
    lemma_at(w, h, x0 + cw - 1, y0 + ch - 1);
    assert(cw * ch <= w * h) by (nonlinear_arith)
        requires
            0 < cw <= w,
            0 < ch <= h,
    ;
    assert(h <= w * h) by (nonlinear_arith)
        requires
            0 < w,
            0 < h,
    ;
}

/// A frame is never lost where memory holds it twice over with a border and, for a single code, all its
/// pixels are there.
pub proof fn law_whole_frames_are_not_lost(
    step: DecodeStep,
    job: Job,
    reads: Seq<Option<(Option<Seq<Seq<u8>>>, Seq<char>)>>,
)
    requires
        is_step(step, job, reads),
        job.grid <= 1 ==> job.luma.len() == job.w * job.h,
        2 * ((job.w + 48) * (job.h + 48)) <= isize::MAX,
    ensures
        !(step is Lost),
{
    let (w, h, grid) = (job.w as int, job.h as int, job.grid as int);
    let s = least(w, h);
    let p = primary_side(w, h);
    assert(0 <= w * h && 2 * (w * h) <= isize::MAX) by (nonlinear_arith)
        requires
            0 <= w,
            0 <= h,
            2 * ((w + 48) * (h + 48)) <= isize::MAX,
    ;
    if grid <= 1 {
        assert(6 * p <= 7 * (s + 48));
        assert(p * p <= 2 * ((w + 48) * (h + 48))) by (nonlinear_arith)
            requires
                0 <= p,
                6 * p <= 7 * (s + 48),
                0 <= s <= w,
                s <= h,
        ;
        if s > 0 {
            lemma_inner_crop_fits(w, h, (w - s) / 2, (h - s) / 2, s, s);
        } else {
            assert(s * s == 0) by (nonlinear_arith)
                requires
                    s == 0,
            ;
            assert(center_fits(w, h));
        }
        if w >= 2 && h >= 2 {
            lemma_at(w, h, 2 * (w / 2) - 1, 2 * (h / 2) - 1);
        }
    } else {
        let k = reads.len() as int;
        if k < tile_count(w, h, grid) {
            let (gx, gy) = (k % grid, k / grid);
            lemma_position(grid, grid, k);
            law_tile_holds_its_cell(w, s, grid, gx);
            law_tile_holds_its_cell(h, s, grid, gy);
            lemma_inner_crop_fits(
                w,
                h,
                tile_start(w, s, grid, gx),
                tile_start(h, s, grid, gy),
                tile_len(w, s, grid, gx),
                tile_len(h, s, grid, gy),
            );
        }
    }
}

/// Every cell of a grid is read, and each in its turn: after as many reports as there are cells in the
/// rows above and to the left in the same row, the image that is handed out is the part of the frame
/// that holds that cell whole and reaches an eighth of a cell past it on every side, as far as the
/// frame goes; it holds the frame's pixels there, unchanged. Rows that a frame lacks are black.
pub proof fn law_every_cell_is_read_in_its_turn(
    job: Job,
    reads: Seq<Option<(Option<Seq<Seq<u8>>>, Seq<char>)>>,
    step: DecodeStep,
    gx: int,
    gy: int,
    x: int,
    y: int,
)
    requires
        is_step(step, job, reads),
        job.grid >= 2,
        job.grid <= job.w,
        job.grid <= job.h,
        2 * ((job.w + 48) * (job.h + 48)) <= isize::MAX,
        !job.sharpen,
        0 <= gx < job.grid,
        0 <= gy < job.grid,
        reads.len() == gy * job.grid + gx,
    ensures
        ({
            let (w, h) = (job.w as int, job.h as int);
            let s = if w <= h {
                w
            } else {
                h
            };
            let c = s / job.grid as int;
            let cx = (w - s) / 2 + gx * c;
            let cy = (h - s) / 2 + gy * c;
            let x0 = if cx >= c / 8 {
                cx - c / 8
            } else {
                0
            };
            let y0 = if cy >= c / 8 {
                cy - c / 8
            } else {
                0
            };
            let x1 = if cx + c + c / 8 <= w {
                cx + c + c / 8
            } else {
                w
            };
            let y1 = if cy + c + c / 8 <= h {
                cy + c + c / 8
            } else {
                h
            };
            &&& c >= 1
            &&& 0 <= x0 <= cx
            &&& cx + c <= x1 <= w
            &&& 0 <= y0 <= cy
            &&& cy + c <= y1 <= h
            &&& step matches DecodeStep::ReadHybrid(image, iw, ih)
            &&& iw == x1 - x0
            &&& ih == y1 - y0
            &&& image@.len() == (x1 - x0) * (y1 - y0)
            &&& x0 <= x < x1 && y0 <= y < y1 ==> image@[(y - y0) * (x1 - x0) + (x - x0)] == if y * w
                + x1 <= job.luma.len() {
                job.luma[y * w + x]
            } else {
                0u8
            }
            &&& job.luma.len() == w * h && x0 <= x < x1 && y0 <= y < y1 ==> image@[(y - y0) * (x1 - x0)
                + (x - x0)] == job.luma[y * w + x]
        }),
{
    let (w, h, grid) = (job.w as int, job.h as int, job.grid as int);
    let s = least(w, h);
    let c = s / grid;
    assert(c >= 1) by (nonlinear_arith)
        requires
            c == s / grid,
            0 < grid <= s,
    ;
    lemma_at(grid, grid, gx, gy);
    law_whole_frames_are_not_lost(step, job, reads);
    law_tile_holds_its_cell(w, s, grid, gx);
    law_tile_holds_its_cell(h, s, grid, gy);
    let (x0, x1) = (tile_start(w, s, grid, gx), tile_end(w, s, grid, gx));
    let (y0, y1) = (tile_start(h, s, grid, gy), tile_end(h, s, grid, gy));
    law_cropping_moves_pixels(job.luma, w, x0, y0, x1 - x0, y1 - y0, 0, 0);
    if x0 <= x < x1 && y0 <= y < y1 {
        law_cropping_moves_pixels(job.luma, w, x0, y0, x1 - x0, y1 - y0, x - x0, y - y0);
        lemma_at(w, h, x1 - 1, y);
    }
}

/// A grid is done when all its cells were read and not before; each of them was an attempt, and the
/// payloads come out in the order in which the cells were read.
pub proof fn law_grid_is_done_after_all_cells(job: Job, reads: Seq<Option<(Option<Seq<Seq<u8>>>, Seq<char>)>>, step: DecodeStep)
    requires
        is_step(step, job, reads),
        job.grid >= 2,
    ensures
        job.grid <= job.w && job.grid <= job.h ==> (step is Done <==> reads.len() >= job.grid * job.grid),
        job.grid > job.w || job.grid > job.h ==> step is Done,
        step matches DecodeStep::Done(d) ==> {
            &&& d.attempts == reads.len()
            &&& d.detected == d.payloads@.len()
            &&& d.payloads@.len() == tile_payloads(reads).len()
            &&& forall|i: int|
                0 <= i < d.payloads@.len() ==> (#[trigger] d.payloads@[i])@ == tile_payloads(reads)[i]
        },
{
    let (w, h, grid) = (job.w as int, job.h as int, job.grid as int);
    let s = least(w, h);
    assert(s / grid >= 1 <==> grid <= s) by (nonlinear_arith)
        requires
            0 < grid,
            0 <= s,
    ;
    if let DecodeStep::Done(d) = step {
        assert(byte_strings(d.payloads@).len() == d.payloads@.len());
        assert forall|i: int| 0 <= i < d.payloads@.len() implies (#[trigger] d.payloads@[i])@
            == tile_payloads(reads)[i] by {
            assert(byte_strings(d.payloads@)[i] == d.payloads@[i]@);
        }
    }
}

/// A cell adds what its code carries behind what the cells before it gave: the byte segments in one
/// piece where there are any, or else a byte for each character of the text. A cell in which no code is
/// found, or one that carries nothing, adds nothing.
pub proof fn law_each_cell_adds_its_payload(reads: Seq<Option<(Option<Seq<Seq<u8>>>, Seq<char>)>>, segments: Seq<Seq<u8>>, text: Seq<char>)
    ensures
        tile_payloads(Seq::<Option<(Option<Seq<Seq<u8>>>, Seq<char>)>>::empty()).len() == 0,
        tile_payloads(reads.push(None)) == tile_payloads(reads),
        tile_payloads(reads.push(Some((Some(segments), text)))) == if segments.len() > 0
            && segments.flatten().len() > 0 {
            tile_payloads(reads).push(segments.flatten())
        } else if segments.len() == 0 && text.len() > 0 {
            tile_payloads(reads).push(text.map_values(|c: char| (c as u32 % 256) as u8))
        } else {
            tile_payloads(reads)
        },
        tile_payloads(reads.push(Some((None, text)))) == if text.len() > 0 {
            tile_payloads(reads).push(text.map_values(|c: char| (c as u32 % 256) as u8))
        } else {
            tile_payloads(reads)
        },
{
    let bytes = text.map_values(|c: char| (c as u32 % 256) as u8);
    assert(reads.push(None).drop_last() =~= reads);
    assert(reads.push(Some((Some(segments), text))).drop_last() =~= reads);
    assert(reads.push(Some((None, text))).drop_last() =~= reads);
    if text.len() > 0 {
        let given = payloads((None, text))[0];
        assert forall|i: int| 0 <= i < text.len() implies given[i] == bytes[i] by {
            law_text_gives_a_byte_for_each_character(text, i);
        }
        law_text_gives_a_byte_for_each_character(text, 0);
        assert(given =~= bytes);
    }
}

/// The first image for a single code is the centred square of the frame in a white border: a twelfth of
/// its side wide, or twenty-four pixels where that is more. A square of 1400 pixels or more is halved
/// first.
pub proof fn law_first_image_is_the_bordered_centre(job: Job, step: DecodeStep, x: int, y: int)
    requires
        is_step(step, job, Seq::<Option<(Option<Seq<Seq<u8>>>, Seq<char>)>>::empty()),
        job.grid <= 1,
        job.luma.len() == job.w * job.h,
        2 * ((job.w + 48) * (job.h + 48)) <= isize::MAX,
        !job.sharpen,
    ensures
        ({
            let (w, h) = (job.w as int, job.h as int);
            let s = if w <= h {
                w
            } else {
                h
            };
            let n = if s >= 1400 {
                s / 2
            } else {
                s
            };
            let p = if n / 12 > 24 {
                n / 12
            } else {
                24
            };
            &&& step matches DecodeStep::ReadGlobal(image, iw, ih)
            &&& iw == n + 2 * p
            &&& ih == n + 2 * p
            &&& image@.len() == (n + 2 * p) * (n + 2 * p)
            &&& 0 <= x < n + 2 * p && 0 <= y < n + 2 * p ==> {
                let v = image@[y * (n + 2 * p) + x];
                if !(p <= x < p + n && p <= y < p + n) {
                    v == 255
                } else if s < 1400 {
                    v == job.luma[((h - s) / 2 + (y - p)) * w + ((w - s) / 2 + (x - p))]
                } else {
                    let (sx, sy) = ((w - s) / 2 + 2 * (x - p), (h - s) / 2 + 2 * (y - p));
                    let sum = job.luma[sy * w + sx] + job.luma[sy * w + (sx + 1)] + job.luma[(sy + 1)
                        * w + sx] + job.luma[(sy + 1) * w + (sx + 1)];
                    4 * v <= sum < 4 * v + 4
                }
            }
        }),
{
    let (w, h) = (job.w as int, job.h as int);
    let s = least(w, h);
    let n = work_side(w, h);
    let p = quiet_zone(n);
    let square = center_square(job.luma, w, h);
    law_whole_frames_are_not_lost(step, job, Seq::<Option<(Option<Seq<Seq<u8>>>, Seq<char>)>>::empty());
    let work = if s >= DOWNSCALE_MIN {
        halved(square, s, s)
    } else {
        square
    };
    law_padding_moves_pixels(work, n, n, p, 0, 0);
    if 0 <= x < n + 2 * p && 0 <= y < n + 2 * p {
        law_padding_moves_pixels(work, n, n, p, x, y);
        if p <= x < p + n && p <= y < p + n {
            let (u, t) = (x - p, y - p);
            if s < 1400 {
                law_centre_square_is_centred(job.luma, w, h, s, u, t);
            } else {
                law_halving_takes_means(square, s, s, u, t);
                law_centre_square_is_centred(job.luma, w, h, s, 2 * u, 2 * t);
                law_centre_square_is_centred(job.luma, w, h, s, 2 * u + 1, 2 * t);
                law_centre_square_is_centred(job.luma, w, h, s, 2 * u, 2 * t + 1);
                law_centre_square_is_centred(job.luma, w, h, s, 2 * u + 1, 2 * t + 1);
            }
        }
    }
}

/// Where the first image gave no payload, the second is the whole frame; one of 1400 columns or more is
/// halved.
pub proof fn law_second_image_is_the_whole_frame(
    job: Job,
    first: Option<(Option<Seq<Seq<u8>>>, Seq<char>)>,
    step: DecodeStep,
    x: int,
    y: int,
)
    requires
        is_step(step, job, seq![first]),
        job.grid <= 1,
        job.luma.len() == job.w * job.h,
        2 * ((job.w + 48) * (job.h + 48)) <= isize::MAX,
        !job.sharpen,
        first matches Some((segments, text)) ==> text.len() == 0 && (segments matches Some(s) ==> s.len()
            == 0),
    ensures
        ({
            let (w, h) = (job.w as int, job.h as int);
            &&& step matches DecodeStep::ReadGlobal(image, iw, ih)
            &&& w < 1400 ==> image@ == job.luma && iw == w && ih == h
            &&& w >= 1400 ==> {
                &&& iw == w / 2
                &&& ih == h / 2
                &&& 0 <= x < w / 2 && 0 <= y < h / 2 ==> image@.len() == (w / 2) * (h / 2) && {
                    let v = image@[y * (w / 2) + x];
                    let sum = job.luma[2 * y * w + 2 * x] + job.luma[2 * y * w + 2 * x + 1]
                        + job.luma[(2 * y + 1) * w + 2 * x] + job.luma[(2 * y + 1) * w + 2 * x + 1];
                    4 * v <= sum < 4 * v + 4
                }
            }
        }),
{
    let (w, h) = (job.w as int, job.h as int);
    assert(seq![first].len() == 1 && seq![first][0] == first);
    law_whole_frames_are_not_lost(step, job, seq![first]);
    if w >= 1400 && 0 <= x < w / 2 && 0 <= y < h / 2 {
        law_halving_takes_means(job.luma, w, h, x, y);
    }
}

/// Whether a report carries nothing: no code, or one without a byte segment and without text.
pub open spec fn is_bare(read: Option<(Option<Seq<Seq<u8>>>, Seq<char>)>) -> bool {
    read matches Some((segments, text)) ==> text.len() == 0 && (segments matches Some(s) ==> s.len()
        == 0)
}

/// What a single code gives is what the last report carries, byte segments before text; the second
/// image is read only where the first report carries nothing. Every image that was read is an attempt,
/// and a code that was found counts even where it carries nothing.
pub proof fn law_single_code_gives_what_was_reported(job: Job, reads: Seq<Option<(Option<Seq<Seq<u8>>>, Seq<char>)>>, step: DecodeStep)
    requires
        is_step(step, job, reads),
        job.grid <= 1,
        1 <= reads.len() <= 2,
        reads.len() == 2 ==> is_bare(reads[0]),
        reads.len() == 1 ==> !is_bare(reads[0]),
    ensures
        step matches DecodeStep::Done(d) && {
            &&& d.attempts == reads.len()
            &&& d.detected == if reads.last() is Some {
                1int
            } else {
                0
            }
            &&& is_bare(reads.last()) ==> d.payloads@.len() == 0
            &&& !is_bare(reads.last()) ==> d.payloads@.len() == 1 && {
                let (segments, text) = reads.last()->0;
                let given = d.payloads@[0]@;
                if segments is Some && segments->0.len() > 0 {
                    given == segments->0.flatten()
                } else {
                    given == text.map_values(|c: char| (c as u32 % 256) as u8)
                }
            }
        },
{
    if let DecodeStep::Done(d) = step {
        assert(byte_strings(d.payloads@).len() == d.payloads@.len());
        if !is_bare(reads.last()) {
            let (segments, text) = reads.last()->0;
            assert(byte_strings(d.payloads@)[0] == d.payloads@[0]@);
            if !(segments is Some && segments->0.len() > 0) {
                let bytes = text.map_values(|c: char| (c as u32 % 256) as u8);
                let given = payloads((segments, text))[0];
                assert forall|i: int| 0 <= i < text.len() implies given[i] == bytes[i] by {
                    law_text_gives_a_byte_for_each_character(text, i);
                }
                law_text_gives_a_byte_for_each_character(text, 0);
                if let Some(s) = segments {
                    assert(s =~= Seq::empty());
                }
                assert(given =~= bytes);
            }
        }
    }
}

/// Sharpening changes nothing but the pixels: a tile, or the second image of a single code, has the same
/// size with sharpening as without, and is that image sharpened.
pub proof fn law_sharpening_is_done_to_the_image(
    plain: Job,
    sharp: Job,
    reads: Seq<Option<(Option<Seq<Seq<u8>>>, Seq<char>)>>,
    a: DecodeStep,
    b: DecodeStep,
    x: int,
    y: int,
)
    requires
        !plain.sharpen,
        sharp == (Job { sharpen: true, ..plain }),
        is_step(a, plain, reads),
        is_step(b, sharp, reads),
        plain.grid >= 2 || reads.len() == 1,
        a.is_read(),
        b.is_read(),
    ensures
        ({
            let (p, pw, ph) = match a {
                DecodeStep::ReadGlobal(p, pw, ph) => (p@, pw as int, ph as int),
                DecodeStep::ReadHybrid(p, pw, ph) => (p@, pw as int, ph as int),
                _ => arbitrary(),
            };
            let (q, qw, qh) = match b {
                DecodeStep::ReadGlobal(q, qw, qh) => (q@, qw as int, qh as int),
                DecodeStep::ReadHybrid(q, qw, qh) => (q@, qw as int, qh as int),
                _ => arbitrary(),
            };
            &&& a is ReadGlobal <==> b is ReadGlobal
            &&& pw == qw && ph == qh
            &&& pw < 3 || ph < 3 ==> p == q
            &&& pw >= 3 && ph >= 3 ==> q.len() == p.len()
            &&& pw >= 3 && ph >= 3 && 0 <= x < pw && 0 <= y < ph ==> {
                let c = y * pw + x;
                let t = 5 * p[c] - p[c - 1] - p[c + 1] - p[c - pw] - p[c + pw];
                if x == 0 || x == pw - 1 || y == 0 || y == ph - 1 {
                    q[c] == p[c]
                } else if t < 0 {
                    q[c] == 0
                } else if t > 255 {
                    q[c] == 255
                } else {
                    q[c] == t
                }
            }
        }),
{
    let (p, pw, ph) = match a {
        DecodeStep::ReadGlobal(p, pw, ph) => (p@, pw as int, ph as int),
        DecodeStep::ReadHybrid(p, pw, ph) => (p@, pw as int, ph as int),
        _ => arbitrary(),
    };
    if pw >= 3 && ph >= 3 {
        if plain.grid >= 2 {
            let (w, h, grid) = (plain.w as int, plain.h as int, plain.grid as int);
            let s = least(w, h);
            let k = reads.len() as int;
            law_cropping_moves_pixels(
                plain.luma,
                w,
                tile_start(w, s, grid, k % grid),
                tile_start(h, s, grid, k / grid),
                pw,
                ph,
                0,
                0,
            );
        } else if plain.w >= DOWNSCALE_MIN {
            law_halving_takes_means(plain.luma, plain.w as int, plain.h as int, 0, 0);
        }
        assert(p.len() == pw * ph);
        law_sharpening_weighs_neighbours(p, pw, ph, 0, 0);
        if 0 <= x < pw && 0 <= y < ph {
            law_sharpening_weighs_neighbours(p, pw, ph, x, y);
        }
    }
}

/// The first image of a single code is sharpened inside its border, which stays white.
pub proof fn law_first_image_is_sharpened_inside(
    plain: Job,
    sharp: Job,
    a: DecodeStep,
    b: DecodeStep,
    x: int,
    y: int,
)
    requires
        !plain.sharpen,
        sharp == (Job { sharpen: true, ..plain }),
        plain.grid <= 1,
        is_step(a, plain, Seq::<Option<(Option<Seq<Seq<u8>>>, Seq<char>)>>::empty()),
        is_step(b, sharp, Seq::<Option<(Option<Seq<Seq<u8>>>, Seq<char>)>>::empty()),
        plain.w >= 3,
        plain.h >= 3,
        plain.luma.len() == plain.w * plain.h,
        2 * ((plain.w + 48) * (plain.h + 48)) <= isize::MAX,
    ensures
        ({
            let s = if plain.w <= plain.h {
                plain.w as int
            } else {
                plain.h as int
            };
            let n = if s >= 1400 {
                s / 2
            } else {
                s
            };
            let e = if n / 12 > 24 {
                n / 12
            } else {
                24
            };
            let m = n + 2 * e;
            &&& a matches DecodeStep::ReadGlobal(p, pw, ph)
            &&& b matches DecodeStep::ReadGlobal(q, qw, qh)
            &&& pw == m && ph == m && qw == m && qh == m
            &&& q@.len() == m * m
            &&& 0 <= x < m && 0 <= y < m ==> {
                let c = y * m + x;
                let t = 5 * p@[c] - p@[c - 1] - p@[c + 1] - p@[c - m] - p@[c + m];
                if !(e < x < e + n - 1 && e < y < e + n - 1) {
                    q@[c] == p@[c]
                } else if t < 0 {
                    q@[c] == 0
                } else if t > 255 {
                    q@[c] == 255
                } else {
                    q@[c] == t
                }
            }
        }),
{
    let (w, h) = (plain.w as int, plain.h as int);
    let s = least(w, h);
    let n = work_side(w, h);
    let e = quiet_zone(n);
    let m = n + 2 * e;
    law_whole_frames_are_not_lost(a, plain, Seq::<Option<(Option<Seq<Seq<u8>>>, Seq<char>)>>::empty());
    law_whole_frames_are_not_lost(b, sharp, Seq::<Option<(Option<Seq<Seq<u8>>>, Seq<char>)>>::empty());
    let square = center_square(plain.luma, w, h);
    let work = if s >= DOWNSCALE_MIN {
        halved(square, s, s)
    } else {
        square
    };
    if s >= DOWNSCALE_MIN {
        law_halving_takes_means(square, s, s, 0, 0);
    } else {
        law_centre_square_is_centred(plain.luma, w, h, s, 0, 0);
    }
    assert(work.len() == n * n);
    let sharper = sharpened(work, n, n);
    law_padding_moves_pixels(work, n, n, e, 0, 0);
    law_padding_moves_pixels(sharper, n, n, e, 0, 0);
    if 0 <= x < m && 0 <= y < m {
        law_padding_moves_pixels(work, n, n, e, x, y);
        law_padding_moves_pixels(sharper, n, n, e, x, y);
        if e <= x < e + n && e <= y < e + n {
            law_sharpening_weighs_neighbours(work, n, n, x - e, y - e);
            if e < x < e + n - 1 && e < y < e + n - 1 {
                law_padding_moves_pixels(work, n, n, e, x - 1, y);
                law_padding_moves_pixels(work, n, n, e, x + 1, y);
                law_padding_moves_pixels(work, n, n, e, x, y - 1);
                law_padding_moves_pixels(work, n, n, e, x, y + 1);
                assert((y - 1) * m == y * m - m && (y + 1) * m == y * m + m) by (nonlinear_arith);
                assert((y - e - 1) * n == (y - e) * n - n && (y - e + 1) * n == (y - e) * n + n)
                    by (nonlinear_arith);
            }
        }
    }
}

} // verus!
