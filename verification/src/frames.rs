//! Frames: what comes from the camera, and what goes to the front end.

use vstd::prelude::*;

verus! {

/// A camera frame: a luma plane of `w` columns and `h` rows.
pub struct LumaFrame {
    pub luma: Vec<u8>,
    pub w: u32,
    pub h: u32,
}

/// The results of one or more camera frames.
#[derive(Clone)]
pub struct DecodedFrame {
    /// Base64 of each code's raw byte-mode payload.
    pub codes: Vec<String>,
    /// The frame rate range asked of the camera.
    pub fps: [i32; 2],
    /// A small grayscale picture for aiming; most messages have none.
    pub preview: Option<PreviewData>,
    /// How many frames the camera has captured so far.
    pub captures: u32,
}

/// A small grayscale picture of what the camera sees.
#[derive(Clone)]
pub struct PreviewData {
    pub w: u32,
    pub h: u32,
    /// Base64 of the `w * h` luma bytes.
    pub gray: String,
    /// By how many degrees to rotate the picture to see it upright.
    pub orientation: i32,
}

} // verus!
