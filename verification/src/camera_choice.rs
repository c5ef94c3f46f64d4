//! Which of a phone's cameras to open, and at what size.

use crate::session::{as_signed, to_signed};
use vstd::prelude::*;

verus! {

/// The facing of a camera on the back of the phone.
pub const FACING_BACK: u8 = 1;

/// What a camera says of itself.
pub struct CameraInfo {
    /// Which way it faces, where it says so.
    pub facing: Option<u8>,
    /// By how many degrees its pictures are turned: the first number, where there is one.
    pub orientation: Vec<i32>,
    /// Its streams, four numbers each: format, width, height, and zero for an output.
    pub configs: Vec<i32>,
    /// Its frame rate ranges, two numbers each: the lowest and the highest rate.
    pub fps_ranges: Vec<i32>,
}

/// What is asked of a camera.
#[derive(Clone, Copy)]
pub struct CameraRequest {
    /// The format of the pictures.
    pub format: i32,
    /// Their width and height.
    pub w: i32,
    pub h: i32,
    /// The frame rate.
    pub fps: u32,
}

/// The camera to open, and the size to open it at.
#[derive(Clone, Copy)]
pub struct CameraChoice {
    pub index: usize,
    pub w: i32,
    pub h: i32,
    /// By how many degrees its pictures are turned.
    pub orientation: i32,
}

/// How many streams a list of numbers describes; numbers left over at its end describe none.
pub open spec fn stream_count(configs: Seq<i32>) -> int {
    configs.len() as int / 4
}

/// Whether stream `i` puts out pictures of the format.
pub open spec fn is_output(configs: Seq<i32>, format: i32, i: int) -> bool {
    configs[4 * i] == format && configs[4 * i + 3] == 0
}

/// The area of the pictures of stream `i`.
pub open spec fn stream_area(configs: Seq<i32>, i: int) -> int {
    configs[4 * i + 1] * configs[4 * i + 2]
}

/// Whether pictures of the very size that is asked for can be had.
pub open spec fn has_size(configs: Seq<i32>, req: CameraRequest) -> bool {
    exists|i: int|
        0 <= i < stream_count(configs) && #[trigger] is_output(configs, req.format, i)
            && configs[4 * i + 1] == req.w && configs[4 * i + 2] == req.h
}

/// The largest area among the first `n` streams that put out the format, or zero.
pub open spec fn largest_area(configs: Seq<i32>, format: i32, n: int) -> int
    decreases n,
{
    if n <= 0 {
        0
    } else {
        let before = largest_area(configs, format, n - 1);
        if is_output(configs, format, n - 1) && stream_area(configs, n - 1) > before {
            stream_area(configs, n - 1)
        } else {
            before
        }
    }
}

/// How far the area of stream `i` is from the area that is asked for.
pub open spec fn area_gap(configs: Seq<i32>, req: CameraRequest, i: int) -> int {
    let d = stream_area(configs, i) - req.w * req.h;
    if d < 0 {
        -d
    } else {
        d
    }
}

/// The first of the streams whose area is closest to the one asked for, among the first `n` that
/// put out the format.
pub open spec fn closest(configs: Seq<i32>, req: CameraRequest, n: int) -> Option<int>
    decreases n,
{
    if n <= 0 {
        None
    } else {
        let before = closest(configs, req, n - 1);
        if is_output(configs, req.format, n - 1) && (before is None || area_gap(configs, req, n - 1)
            < area_gap(configs, req, before->0)) {
            Some(n - 1)
        } else {
            before
        }
    }
}

/// The size at which a camera is opened: the one asked for where it can be had, or else the closest
/// that can, or else the one asked for after all.
pub open spec fn opened_size(configs: Seq<i32>, req: CameraRequest) -> (i32, i32) {
    let best = closest(configs, req, stream_count(configs));
    if has_size(configs, req) || best is None {
        (req.w, req.h)
    } else {
        (configs[4 * best->0 + 1], configs[4 * best->0 + 2])
    }
}

/// Whether some frame rate range reaches the rate that is asked for.
pub open spec fn has_rate(fps_ranges: Seq<i32>, fps: u32) -> bool {
    exists|j: int| 0 <= j < fps_ranges.len() / 2 && #[trigger] fps_ranges[2 * j + 1] >= as_signed(fps)
}

/// Whether a camera is on the back of the phone. One that does not say is taken to be.
pub open spec fn faces_back(info: CameraInfo) -> bool {
    info.facing is None || info.facing->0 == FACING_BACK
}

/// How well a camera suits: the back counts most, then the size, then the rate, then how large its
/// pictures can be.
pub open spec fn score(info: CameraInfo, req: CameraRequest) -> int {
    (if faces_back(info) {
        1_000_000int
    } else {
        0
    }) + (if has_size(info.configs@, req) {
        400_000int
    } else {
        0
    }) + (if has_rate(info.fps_ranges@, req.fps) {
        200_000int
    } else {
        0
    }) + max_area(info, req) / 10_000
}

/// The largest area of a camera's pictures.
pub open spec fn max_area(info: CameraInfo, req: CameraRequest) -> int {
    largest_area(info.configs@, req.format, stream_count(info.configs@))
}

/// The first of the best among the first `n` cameras, where any of them says anything of itself.
pub open spec fn best_camera(cams: Seq<Option<CameraInfo>>, req: CameraRequest, n: int) -> Option<int>
    decreases n,
{
    if n <= 0 {
        None
    } else {
        let before = best_camera(cams, req, n - 1);
        if cams[n - 1] is Some && (before is None || score(cams[n - 1]->0, req) > score(
            cams[before->0]->0,
            req,
        )) {
            Some(n - 1)
        } else {
            before
        }
    }
}

/// The orientation that a camera reports, or zero.
pub open spec fn reported_orientation(info: CameraInfo) -> i32 {
    if info.orientation@.len() > 0 {
        info.orientation@[0]
    } else {
        0
    }
}

/// The product of two sides, in 64 bits.
fn area(w: i32, h: i32) -> (a: i64)
    ensures
        a == w * h,
        -0x3fff_ffff_8000_0000 <= a <= 0x4000_0000_0000_0000,
{
    assert(-0x3fff_ffff_8000_0000 <= w * h <= 0x4000_0000_0000_0000) by (nonlinear_arith)
        requires
            -0x8000_0000 <= w <= 0x7fff_ffff,
            -0x8000_0000 <= h <= 0x7fff_ffff,
    ;
    w as i64 * h as i64
}

/// What a camera's streams come to.
struct StreamScan {
    has_size: bool,
    max_area: i64,
    w: i32,
    h: i32,
}

/// Goes through a camera's streams.
fn scan_streams(configs: &Vec<i32>, req: &CameraRequest) -> (scan: StreamScan)
    ensures
        scan.has_size == has_size(configs@, *req),
        scan.max_area == largest_area(configs@, req.format, stream_count(configs@)),
        0 <= scan.max_area <= 0x4000_0000_0000_0000,
        (scan.w, scan.h) == opened_size(configs@, *req),
{
    let wanted: i64 = area(req.w, req.h);
    let len: usize = configs.len();
    let count: usize = len / 4;
    let mut exact: bool = false;
    let mut max_area: i64 = 0;
    let mut best: Option<usize> = None;
    let mut best_gap: i64 = 0;
    for i in 0..count
        invariant
            len == configs@.len(),
            count == len / 4,
            wanted == req.w * req.h,
            -0x3fff_ffff_8000_0000 <= wanted <= 0x4000_0000_0000_0000,
            exact <==> exists|k: int|
                0 <= k < i && #[trigger] is_output(configs@, req.format, k) && configs@[4 * k + 1]
                    == req.w && configs@[4 * k + 2] == req.h,
            max_area == largest_area(configs@, req.format, i as int),
            0 <= max_area <= 0x4000_0000_0000_0000,
            best matches Some(b) ==> b < i && best_gap == area_gap(configs@, *req, b as int),
            closest(configs@, *req, i as int) == match best {
                Some(b) => Some(b as int),
                None => None::<int>,
            },
    {
        let k: usize = 4 * i;
        let (w, h): (i32, i32) = (configs[k + 1], configs[k + 2]);
        if configs[k] == req.format && configs[k + 3] == 0 {
            assert(is_output(configs@, req.format, i as int));
            if w == req.w && h == req.h {
                exact = true;
            }
            let a: i64 = area(w, h);
            if a > max_area {
                max_area = a;
            }
            let gap: i64 = if a < wanted {
                wanted - a
            } else {
                a - wanted
            };
            let closer: bool = match best {
                Some(_) => gap < best_gap,
                None => true,
            };
            if closer {
                best = Some(i);
                best_gap = gap;
            }
        }
    }
    let (w, h): (i32, i32) = match best {
        Some(b) => if exact {
            (req.w, req.h)
        } else {
            (configs[4 * b + 1], configs[4 * b + 2])
        },
        None => (req.w, req.h),
    };
    StreamScan { has_size: exact, max_area, w, h }
}

/// Whether some frame rate range reaches the rate that is asked for.
fn reaches_rate(fps_ranges: &Vec<i32>, fps: u32) -> (b: bool)
    ensures
        b == has_rate(fps_ranges@, fps),
{
    let rate: i32 = to_signed(fps);
    let len: usize = fps_ranges.len();
    let count: usize = len / 2;
    for j in 0..count
        invariant
            len == fps_ranges@.len(),
            count == len / 2,
            rate == as_signed(fps),
            forall|k: int| 0 <= k < j ==> #[trigger] fps_ranges@[2 * k + 1] < rate,
    {
        if fps_ranges[2 * j + 1] >= rate {
            assert(fps_ranges@[2 * (j as int) + 1] >= rate);
            return true;
        }
    }
    false
}

/// Computes how well a camera suits, and the size at which it would be opened.
pub fn rate_camera(info: &CameraInfo, req: &CameraRequest) -> (r: (i64, i32, i32))
    ensures
        r.0 == score(*info, *req),
        (r.1, r.2) == opened_size(info.configs@, *req),
{
    let scan: StreamScan = scan_streams(&info.configs, req);
    let back: bool = match info.facing {
        Some(f) => f == FACING_BACK,
        None => true,
    };
    let mut total: i64 = scan.max_area / 10_000;
    if back {
        total = total + 1_000_000;
    }
    if scan.has_size {
        total = total + 400_000;
    }
    if reaches_rate(&info.fps_ranges, req.fps) {
        total = total + 200_000;
    }
    (total, scan.w, scan.h)
}

/// Chooses a camera. Where none says anything of itself the first is taken, at the size asked for.
pub fn select_camera(cams: &Vec<Option<CameraInfo>>, req: &CameraRequest) -> (choice: CameraChoice)
    ensures
        match best_camera(cams@, *req, cams@.len() as int) {
            Some(i) => {
                let info = cams@[i]->0;
                &&& choice.index == i
                &&& (choice.w, choice.h) == opened_size(info.configs@, *req)
                &&& choice.orientation == reported_orientation(info)
            },
            None => choice == (CameraChoice { index: 0, w: req.w, h: req.h, orientation: 0 }),
        },
{
    let mut choice: CameraChoice = CameraChoice { index: 0, w: req.w, h: req.h, orientation: 0 };
    let mut best: Option<i64> = None;
    for i in 0..cams.len()
        invariant
            match best_camera(cams@, *req, i as int) {
                Some(b) => {
                    let info = cams@[b]->0;
                    &&& 0 <= b < i
                    &&& cams@[b] is Some
                    &&& choice.index == b
                    &&& (choice.w, choice.h) == opened_size(info.configs@, *req)
                    &&& choice.orientation == reported_orientation(info)
                    &&& best matches Some(s)
                    &&& s == score(info, *req)
                },
                None => best is None && choice == (CameraChoice {
                    index: 0,
                    w: req.w,
                    h: req.h,
                    orientation: 0,
                }),
            },
    {
        if let Some(info) = &cams[i] {
            let (total, w, h): (i64, i32, i32) = rate_camera(info, req);
            let better: bool = match best {
                Some(s) => total > s,
                None => true,
            };
            if better {
                let orientation: i32 = if info.orientation.len() > 0 {
                    info.orientation[0]
                } else {
                    0
                };
                best = Some(total);
                choice = CameraChoice { index: i, w, h, orientation };
            }
        }
    }
    choice
}

/// The camera that is chosen suits at least as well as every other that says anything of itself,
/// and better than those before it.
pub proof fn law_best_camera_is_best(cams: Seq<Option<CameraInfo>>, req: CameraRequest, n: int)
    requires
        0 <= n <= cams.len(),
    ensures
        best_camera(cams, req, n) is None <==> forall|j: int| 0 <= j < n ==> cams[j] is None,
        best_camera(cams, req, n) matches Some(b) ==> {
            &&& 0 <= b < n
            &&& cams[b] is Some
            &&& forall|j: int|
                0 <= j < n && #[trigger] cams[j] is Some ==> score(cams[j]->0, req) <= score(
                    cams[b]->0,
                    req,
                )
            &&& forall|j: int|
                0 <= j < b && #[trigger] cams[j] is Some ==> score(cams[j]->0, req) < score(
                    cams[b]->0,
                    req,
                )
        },
    decreases n,
{
    if n > 0 {
        law_best_camera_is_best(cams, req, n - 1);
        if best_camera(cams, req, n) is None {
            assert(best_camera(cams, req, n - 1) is None);
        } else if cams[n - 1] is Some {
            assert(!(forall|j: int| 0 <= j < n ==> cams[j] is None));
        } else {
            assert(exists|j: int| 0 <= j < n - 1 && cams[j] is Some);
        }
    }
}

/// A camera on the back comes before any other; among those that face alike, one that has the size
/// asked for; among those, one that reaches the rate; and among those, the one with the larger
/// pictures. No sensor has two thousand million pixels, which would upset the order.
pub proof fn law_preferences_in_order(a: CameraInfo, b: CameraInfo, req: CameraRequest)
    requires
        max_area(a, req) < 2_000_000_000,
        max_area(b, req) < 2_000_000_000,
    ensures
        faces_back(a) && !faces_back(b) ==> score(a, req) > score(b, req),
        faces_back(a) == faces_back(b) ==> {
            &&& has_size(a.configs@, req) && !has_size(b.configs@, req) ==> score(a, req) > score(
                b,
                req,
            )
            &&& has_size(a.configs@, req) == has_size(b.configs@, req) ==> {
                &&& has_rate(a.fps_ranges@, req.fps) && !has_rate(b.fps_ranges@, req.fps) ==> score(
                    a,
                    req,
                ) > score(b, req)
                &&& has_rate(a.fps_ranges@, req.fps) == has_rate(b.fps_ranges@, req.fps) && max_area(
                    a,
                    req,
                ) >= max_area(b, req) ==> score(a, req) >= score(b, req)
            }
        },
{
    lemma_largest_area(a.configs@, req.format, stream_count(a.configs@));
    lemma_largest_area(b.configs@, req.format, stream_count(b.configs@));
}

/// The largest area is not negative.
proof fn lemma_largest_area(configs: Seq<i32>, format: i32, n: int)
    ensures
        largest_area(configs, format, n) >= 0,
    decreases n,
{
    if n > 0 {
        lemma_largest_area(configs, format, n - 1);
    }
}

/// The size at which a camera is opened is one that it puts out, wherever it puts out any; no other
/// that it puts out is closer in area to the one asked for.
pub proof fn law_opened_size_is_offered(configs: Seq<i32>, req: CameraRequest, i: int)
    requires
        0 <= i < stream_count(configs),
        is_output(configs, req.format, i),
    ensures
        exists|k: int|
            0 <= k < stream_count(configs) && #[trigger] is_output(configs, req.format, k) && (
            configs[4 * k + 1],
            configs[4 * k + 2],
            ) == opened_size(configs, req) && area_gap(configs, req, k) <= area_gap(configs, req, i),
{
    lemma_closest(configs, req, stream_count(configs), i);
    let best = closest(configs, req, stream_count(configs))->0;
    assert(is_output(configs, req.format, best));
}

/// The closest stream puts out the format, and none of the first `n` that does is closer.
proof fn lemma_closest(configs: Seq<i32>, req: CameraRequest, n: int, i: int)
    requires
        0 <= i < n,
        is_output(configs, req.format, i),
    ensures
        closest(configs, req, n) matches Some(b) && 0 <= b < n && is_output(configs, req.format, b)
            && area_gap(configs, req, b) <= area_gap(configs, req, i),
    decreases n,
{
    if i < n - 1 {
        lemma_closest(configs, req, n - 1, i);
    } else {
        lemma_closest_output(configs, req, n - 1);
    }
}

/// The closest stream puts out the format.
proof fn lemma_closest_output(configs: Seq<i32>, req: CameraRequest, n: int)
    ensures
        closest(configs, req, n) matches Some(b) ==> 0 <= b < n && is_output(configs, req.format, b),
    decreases n,
{
    if n > 0 {
        lemma_closest_output(configs, req, n - 1);
    }
}

/// A camera scores a million for the back of the phone, four hundred thousand for the size that is asked
/// for, two hundred thousand for a range whose highest rate reaches the one asked for, and one for every
/// ten thousand pixels of its largest picture. One that does not say where it faces counts as on the
/// back.
pub proof fn law_score_adds_up(info: CameraInfo, req: CameraRequest)
    requires
        req.fps <= i32::MAX,
    ensures
        ({
            let (c, f) = (info.configs@, info.fps_ranges@);
            let back = info.facing is None || info.facing == Some(1u8);
            let size = exists|i: int|
                0 <= i && 4 * i + 3 < c.len() && c[4 * i] == req.format && c[4 * i + 1] == req.w && c[4 * i
                    + 2] == req.h && #[trigger] c[4 * i + 3] == 0;
            let rate = exists|j: int| 0 <= j && 2 * j + 1 < f.len() && #[trigger] f[2 * j + 1] >= req.fps;
            score(info, req) == (if back {
                1_000_000int
            } else {
                0
            }) + (if size {
                400_000int
            } else {
                0
            }) + (if rate {
                200_000int
            } else {
                0
            }) + max_area(info, req) / 10_000
        }),
{
    let (c, f) = (info.configs@, info.fps_ranges@);
    if has_size(c, req) {
        let i = choose|i: int|
            0 <= i < stream_count(c) && #[trigger] is_output(c, req.format, i) && c[4 * i + 1] == req.w
                && c[4 * i + 2] == req.h;
        assert(c[4 * i + 3] == 0);
    }
    if exists|i: int|
        0 <= i && 4 * i + 3 < c.len() && c[4 * i] == req.format && c[4 * i + 1] == req.w && c[4 * i + 2]
            == req.h && #[trigger] c[4 * i + 3] == 0 {
        let i = choose|i: int|
            0 <= i && 4 * i + 3 < c.len() && c[4 * i] == req.format && c[4 * i + 1] == req.w && c[4 * i
                + 2] == req.h && #[trigger] c[4 * i + 3] == 0;
        assert(is_output(c, req.format, i));
    }
    if has_rate(f, req.fps) {
        let j = choose|j: int|
            0 <= j < f.len() / 2 && #[trigger] f[2 * j + 1] >= as_signed(req.fps);
        assert(f[2 * j + 1] >= req.fps);
    }
}

/// The largest picture of a camera is as large as every picture that it puts out in the format, and is
/// one of them, or nothing where all are empty.
pub proof fn law_largest_picture_is_largest(configs: Seq<i32>, format: i32, i: int)
    requires
        0 <= i,
        4 * i + 3 < configs.len(),
        configs[4 * i] == format,
        configs[4 * i + 3] == 0,
    ensures
        configs[4 * i + 1] * configs[4 * i + 2] <= largest_area(configs, format, stream_count(configs)),
        largest_area(configs, format, stream_count(configs)) == 0 || exists|k: int|
            0 <= k && 4 * k + 3 < configs.len() && configs[4 * k] == format && #[trigger] configs[4 * k + 3]
                == 0 && configs[4 * k + 1] * configs[4 * k + 2] == largest_area(
                configs,
                format,
                stream_count(configs),
            ),
{
    lemma_largest(configs, format, stream_count(configs), i);
}

/// What holds of the largest picture among the first `n` streams.
proof fn lemma_largest(configs: Seq<i32>, format: i32, n: int, i: int)
    requires
        0 <= n <= stream_count(configs),
    ensures
        0 <= i < n && is_output(configs, format, i) ==> stream_area(configs, i) <= largest_area(
            configs,
            format,
            n,
        ),
        largest_area(configs, format, n) == 0 || exists|k: int|
            0 <= k && 4 * k + 3 < configs.len() && configs[4 * k] == format && #[trigger] configs[4 * k + 3]
                == 0 && configs[4 * k + 1] * configs[4 * k + 2] == largest_area(configs, format, n),
    decreases n,
{
    if n > 0 {
        lemma_largest(configs, format, n - 1, i);
        if is_output(configs, format, n - 1) {
            assert(configs[4 * (n - 1) + 3] == 0);
        }
    }
}

/// How far an area is from the one that is asked for.
pub open spec fn distance(area: int, req: CameraRequest) -> int {
    if area < req.w * req.h {
        req.w * req.h - area
    } else {
        area - req.w * req.h
    }
}

/// A camera is opened at the size asked for where it puts that out. Where it does not, it is opened at
/// the first of those that it puts out whose areas are closest to the one asked for.
pub proof fn law_opened_size_is_exact_or_closest(configs: Seq<i32>, req: CameraRequest, i: int)
    requires
        0 <= i,
        4 * i + 3 < configs.len(),
        configs[4 * i] == req.format,
        configs[4 * i + 3] == 0,
    ensures
        configs[4 * i + 1] == req.w && configs[4 * i + 2] == req.h ==> opened_size(configs, req) == (
            req.w,
            req.h,
        ),
        opened_size(configs, req) == (req.w, req.h) || exists|k: int|
            0 <= k && 4 * k + 3 < configs.len() && configs[4 * k] == req.format && #[trigger] configs[4 * k
                + 3] == 0 && (configs[4 * k + 1], configs[4 * k + 2]) == opened_size(configs, req)
                && distance(configs[4 * k + 1] * configs[4 * k + 2], req) <= distance(
                configs[4 * i + 1] * configs[4 * i + 2],
                req,
            ) && (i < k ==> distance(configs[4 * k + 1] * configs[4 * k + 2], req) < distance(
                configs[4 * i + 1] * configs[4 * i + 2],
                req,
            )),
{
    assert(is_output(configs, req.format, i));
    let n = stream_count(configs);
    lemma_closest(configs, req, n, i);
    lemma_closest_is_first(configs, req, n, i);
    let k = closest(configs, req, n)->0;
    assert(configs[4 * k + 3] == 0);
}

/// The streams before the closest are further off.
proof fn lemma_closest_is_first(configs: Seq<i32>, req: CameraRequest, n: int, i: int)
    requires
        0 <= i < n,
        is_output(configs, req.format, i),
    ensures
        closest(configs, req, n) matches Some(b) && (i < b ==> area_gap(configs, req, b) < area_gap(
            configs,
            req,
            i,
        )),
    decreases n,
{
    lemma_closest(configs, req, n, i);
    if i < n - 1 {
        lemma_closest_is_first(configs, req, n - 1, i);
        lemma_closest(configs, req, n - 1, i);
    }
}

} // verus!
