//! The stage between the camera and the workers: it ships a preview now and then, and hands every
//! frame on. It never decodes, so previews and capture counts flow while every worker is busy.

use crate::frames::{DecodedFrame, LumaFrame};
use crate::preview::{can_preview, is_preview, try_preview};
use vstd::prelude::*;

verus! {

/// How long the coordinator waits for a frame, in milliseconds, before it looks again.
pub const FRAME_WAIT_MS: u64 = 200;

/// How long there is between two previews at least, in milliseconds.
pub const PREVIEW_MS: u64 = 300;

/// What a stage does next when it looks for a frame.
#[derive(Clone, Copy, PartialEq, Eq, Structural)]
pub enum FrameStep {
    /// Leave the loop.
    Exit,
    /// Wait for a frame and look again.
    Wait,
    /// Take the frame.
    Take,
}

/// Decides what the coordinator does when it looks for the latest frame.
pub fn coordinator_step(frame_ready: bool, stopped: bool) -> (step: FrameStep)
    ensures
        step == if stopped {
            FrameStep::Exit
        } else if frame_ready {
            FrameStep::Take
        } else {
            FrameStep::Wait
        },
{
    if stopped {
        FrameStep::Exit
    } else if frame_ready {
        FrameStep::Take
    } else {
        FrameStep::Wait
    }
}

/// Whether it is time for another preview.
pub fn preview_due(since_last_ms: u64) -> (due: bool)
    ensures
        due == (since_last_ms >= PREVIEW_MS),
{
    since_last_ms >= PREVIEW_MS
}

/// The message that carries the preview of a frame. A frame that cannot be averaged down has none.
pub fn preview_message(frame: &LumaFrame, orientation: i32, fps: [i32; 2], captures: u32) -> (message:
    Option<DecodedFrame>)
    ensures
        message is Some <==> can_preview(frame.luma@.len() as int, frame.w as int, frame.h as int),
        message matches Some(m) ==> {
            &&& m.codes@.len() == 0
            &&& m.fps == fps
            &&& m.preview matches Some(p)
            &&& is_preview(p, frame.luma@, frame.w as int, frame.h as int, orientation)
            &&& m.captures == captures
        },
{
    match try_preview(frame.luma.as_slice(), frame.w, frame.h, orientation) {
        Some(preview) => Some(
            DecodedFrame { codes: Vec::new(), fps, preview: Some(preview), captures },
        ),
        None => None,
    }
}

} // verus!
