//! The camera of a desktop: a thread of its own captures until it is told to stop.

use vstd::prelude::*;
use vstd::string::StringExecFns;

verus! {

/// How long opening the camera may take, in milliseconds.
pub const OPEN_MS: u64 = 5000;

/// How long the capturing thread rests after a frame that failed, in milliseconds.
pub const RETRY_MS: u64 = 3;

/// Desktop cameras stand upright.
pub const ORIENTATION: i32 = 0;

/// The side that is asked of the camera: at least one pixel.
pub fn requested_side(side: i32) -> (r: u32)
    ensures
        r == if side < 1 {
            1
        } else {
            side as int
        },
{
    if side < 1 {
        1
    } else {
        side as u32
    }
}

/// A camera that captures, or was told to stop.
pub struct Camera {
    /// Whether it was told to stop.
    pub stopped: bool,
}

impl Camera {
    /// The camera, given what the capturing thread replied; nothing where it did not reply in time.
    pub fn open(reply: Option<Result<(), String>>) -> (r: Result<Camera, String>)
        ensures
            match reply {
                Some(Ok(_)) => r matches Ok(c) && !c.stopped,
                Some(Err(reason)) => r matches Err(e) && e == reason,
                None => r matches Err(e) && e@ == "camera open timed out"@,
            },
    {
        match reply {
            Some(Ok(())) => Ok(Camera { stopped: false }),
            Some(Err(reason)) => Err(reason),
            None => Err(String::from_str("camera open timed out")),
        }
    }

    /// Whether the capturing thread goes on.
    pub fn captures(&self, session_stopped: bool) -> (b: bool)
        ensures
            b == !(self.stopped || session_stopped),
    {
        !(self.stopped || session_stopped)
    }

    /// Closes the camera. Returns what is to be done, in order: the device is released by the time the
    /// capturing thread has ended.
    pub fn close(&mut self) -> (steps: Vec<CloseStep>)
        ensures
            final(self).stopped,
            steps@ == close_steps(),
    {
        self.stopped = true;
        let mut steps: Vec<CloseStep> = Vec::new();
        steps.push(CloseStep::TellThread);
        steps.push(CloseStep::JoinThread);
        assert(steps@ =~= close_steps());
        steps
    }
}

/// One thing that is done to close the camera.
#[derive(Clone, Copy, PartialEq, Eq, Structural)]
pub enum CloseStep {
    /// Let the capturing thread see that it is to stop.
    TellThread,
    /// Wait until the capturing thread has stopped the stream, released the device and ended.
    JoinThread,
}

/// What is done to close the camera, in order.
pub open spec fn close_steps() -> Seq<CloseStep> {
    seq![CloseStep::TellThread, CloseStep::JoinThread]
}

/// What kept the capturing thread from starting.
#[derive(Clone, Copy, PartialEq, Eq, Structural)]
pub enum OpenStage {
    /// The thread could not be spawned.
    Spawn,
    /// The device could not be opened.
    Open,
    /// The device could not be made to stream.
    Stream,
}

/// The reason that is reported.
pub open spec fn stage_failure(stage: OpenStage, reason: Seq<char>) -> Seq<char> {
    match stage {
        OpenStage::Spawn => "spawn: "@ + reason,
        OpenStage::Open => "open: "@ + reason,
        OpenStage::Stream => "stream: "@ + reason,
    }
}

/// Says what kept the capturing thread from starting.
pub fn stage_failed(stage: OpenStage, reason: &str) -> (text: String)
    ensures
        text@ == stage_failure(stage, reason@),
{
    let mut text: String = match stage {
        OpenStage::Spawn => String::from_str("spawn: "),
        OpenStage::Open => String::from_str("open: "),
        OpenStage::Stream => String::from_str("stream: "),
    };
    text.append(reason);
    text
}

} // verus!
