//! Which permissions of the web view are granted without asking.

use vstd::prelude::*;

verus! {

/// The web view's number for the permission to use the microphone.
pub const KIND_MICROPHONE: i32 = 1;

/// The web view's number for the permission to use the camera.
pub const KIND_CAMERA: i32 = 2;

/// Whether a permission is granted: camera and microphone are, so that a refusal that the web view
/// remembers cannot keep the camera from starting. Every other request takes its usual course.
pub fn grants(kind: i32) -> (b: bool)
    ensures
        b == (kind == KIND_CAMERA || kind == KIND_MICROPHONE),
{
    kind == KIND_CAMERA || kind == KIND_MICROPHONE
}

} // verus!
