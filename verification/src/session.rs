//! Starting and stopping a capture session.

use vstd::prelude::*;
use vstd::string::StringExecFns;

verus! {

/// How many workers there are at most.
pub const MAX_WORKERS: u32 = 16;

/// How long a start waits at most for the session before to wind down, in milliseconds.
pub const TEARDOWN_MS: u64 = 1500;

/// How long there is between two looks whether the session before has wound down, in milliseconds.
pub const TEARDOWN_POLL_MS: u64 = 20;

/// By how many degrees a rear camera's pictures are turned, until the camera says otherwise.
pub const DEFAULT_ORIENTATION: i32 = 90;

/// What a capture session goes by.
pub struct CaptureConfig {
    /// The frame rate range asked of the camera.
    pub fps_range: [i32; 2],
    /// How many workers decode.
    pub workers: u32,
    /// How many frames wait for the workers at most.
    pub work_max: usize,
    /// How many codes the sender shows side by side.
    pub grid: usize,
    /// Whether images are sharpened before they are read.
    pub sharpen: bool,
}

/// A number in 32 bits, read as a signed one.
pub open spec fn as_signed(n: u32) -> i32 {
    if n < 0x8000_0000 {
        n as i32
    } else {
        (n - 0x1_0000_0000) as i32
    }
}

/// Reads a number in 32 bits as a signed one.
pub(crate) fn to_signed(n: u32) -> (r: i32)
    ensures
        r == as_signed(n),
{
    let r: i32 = n as i32;
    assert(n < 0x8000_0000 ==> r == n) by (bit_vector)
        requires
            r == n as i32,
    ;
    assert(n >= 0x8000_0000 ==> r == n - 0x1_0000_0000) by (bit_vector)
        requires
            r == n as i32,
    ;
    r
}

/// How many workers are used where `asked` are asked for.
pub open spec fn worker_count(asked: u32) -> u32 {
    if asked < 1 {
        1
    } else if asked > MAX_WORKERS {
        MAX_WORKERS
    } else {
        asked
    }
}

impl CaptureConfig {
    /// What a session goes by, given what was asked for. The queue of frames holds one for each
    /// worker and two to spare.
    pub fn new(target_fps: u32, grid: u32, workers: u32, sharpen: bool) -> (c: Self)
        ensures
            c.fps_range@ == seq![as_signed(target_fps), as_signed(target_fps)],
            c.workers == worker_count(workers),
            c.work_max == worker_count(workers) + 2,
            c.grid == if grid == 0 {
                1
            } else {
                grid
            },
            c.sharpen == sharpen,
    {
        let fps: i32 = to_signed(target_fps);
        let workers: u32 = if workers < 1 {
            1
        } else if workers > MAX_WORKERS {
            MAX_WORKERS
        } else {
            workers
        };
        let grid: usize = if grid == 0 {
            1
        } else {
            grid as usize
        };
        let fps_range: [i32; 2] = [fps, fps];
        assert(fps_range@ =~= seq![fps, fps]);
        CaptureConfig { fps_range, workers, work_max: workers as usize + 2, grid, sharpen }
    }
}

/// Whether a start goes on waiting for the session before to wind down. It never waits for long: a
/// session that cannot wind down must not keep the camera from starting again.
pub fn keep_waiting(done: bool, waited_ms: u64) -> (b: bool)
    ensures
        b == (!done && waited_ms < TEARDOWN_MS),
{
    !done && waited_ms < TEARDOWN_MS
}

/// The place of the one session that can run at a time.
pub struct SessionSlot<S> {
    session: Option<S>,
}

impl<S> View for SessionSlot<S> {
    type V = Option<S>;

    closed spec fn view(&self) -> Option<S> {
        self.session
    }
}

impl<S> SessionSlot<S> {
    /// No session runs.
    pub fn new() -> (slot: Self)
        ensures
            slot@ is None,
    {
        SessionSlot { session: None }
    }

    /// Whether a session may start; the reason where it may not.
    pub fn claim(&self) -> (r: Result<(), String>)
        ensures
            r is Ok <==> self@ is None,
            r matches Err(e) ==> e@ == "camera already running"@,
    {
        if self.session.is_some() {
            return Err(String::from_str("camera already running"));
        }
        Ok(())
    }

    /// Holds a session that has started.
    pub fn hold(&mut self, session: S)
        requires
            old(self)@ is None,
        ensures
            final(self)@ == Some(session),
    {
        self.session = Some(session);
    }
}

/// Which camera a session uses.
#[derive(Clone, Copy, PartialEq, Eq, Structural)]
pub enum CameraKind {
    /// The camera of a phone.
    Native,
    /// The camera of a desktop.
    Desktop,
}

/// What is reported where a camera cannot be opened for the reason `reason`.
pub open spec fn open_failure(kind: CameraKind, reason: Seq<char>) -> Seq<char> {
    match kind {
        CameraKind::Native => "camera2 open failed: "@ + reason,
        CameraKind::Desktop => "camera open failed: "@ + reason,
    }
}

/// Says that a camera could not be opened, and why.
pub fn open_failed(kind: CameraKind, reason: &str) -> (text: String)
    ensures
        text@ == open_failure(kind, reason@),
{
    let mut text: String = match kind {
        CameraKind::Native => String::from_str("camera2 open failed: "),
        CameraKind::Desktop => String::from_str("camera open failed: "),
    };
    text.append(reason);
    text
}

/// The session that is held after a start, given the one that was held before and what opening the
/// camera would come to: a session that runs stays, and a camera that cannot be opened leaves none.
pub open spec fn held_after_start<S>(held: Option<S>, opened: Result<S, String>) -> Option<S> {
    match (held, opened) {
        (Some(running), _) => Some(running),
        (None, Ok(session)) => Some(session),
        (None, Err(_)) => None,
    }
}

/// What a start reports, where it fails.
pub open spec fn start_error<S>(
    held: Option<S>,
    kind: CameraKind,
    opened: Result<S, String>,
) -> Option<Seq<char>> {
    match (held, opened) {
        (Some(_), _) => Some("camera already running"@),
        (None, Ok(_)) => None,
        (None, Err(reason)) => Some(open_failure(kind, reason@)),
    }
}

/// The text of an error.
pub open spec fn error_text(r: Result<(), String>) -> Option<Seq<char>> {
    match r {
        Ok(_) => None,
        Err(e) => Some(e@),
    }
}

/// Starts a session, unless one runs. Only where none does is `open` called, which opens the camera
/// and makes the session; what it comes to decides. Where one runs nothing is asked of `open`, so it
/// cannot be called.
pub fn start<S, O: FnOnce() -> Result<S, String>>(
    slot: &mut SessionSlot<S>,
    kind: CameraKind,
    open: O,
) -> (r: Result<(), String>)
    requires
        old(slot)@ is None ==> open.requires(()),
    ensures
        old(slot)@ is Some ==> final(slot)@ == old(slot)@ && error_text(r) == Some(
            "camera already running"@,
        ),
        old(slot)@ is None ==> exists|opened: Result<S, String>| #[trigger]
            open.ensures((), opened) && final(slot)@ == held_after_start(old(slot)@, opened)
                && error_text(r) == start_error(old(slot)@, kind, opened),
{
    if let Err(e) = slot.claim() {
        return Err(e);
    }
    match open() {
        Ok(session) => {
            slot.hold(session);
            Ok(())
        },
        Err(reason) => Err(open_failed(kind, reason.as_str())),
    }
}

/// Hands out the session to be stopped, where one runs. From here on another may start.
pub fn stop<S>(slot: &mut SessionSlot<S>) -> (session: Option<S>)
    ensures
        session == old(slot)@,
        final(slot)@ is None,
{
    slot.session.take()
}

/// After a start that succeeded, every further start is refused and leaves the running session as it
/// is, whatever its camera would come to.
pub proof fn law_one_session_at_a_time<S>(
    held: Option<S>,
    kind: CameraKind,
    first: Result<S, String>,
    second: Result<S, String>,
)
    requires
        start_error(held, kind, first) is None,
    ensures
        held_after_start(held, first) is Some,
        held_after_start(held_after_start(held, first), second) == held_after_start(held, first),
        start_error(held_after_start(held, first), kind, second) == Some("camera already running"@),
{
}

/// After a camera that could not be opened, no session is held, and the next start is not refused: it
/// comes to what opening its camera comes to.
pub proof fn law_failed_start_leaves_nothing<S>(
    kind: CameraKind,
    reason: String,
    next: Result<S, String>,
)
    ensures
        start_error(None::<S>, kind, Err::<S, String>(reason)) == Some(open_failure(kind, reason@)),
        held_after_start(None::<S>, Err::<S, String>(reason)) is None,
        start_error(held_after_start(None::<S>, Err::<S, String>(reason)), kind, next) is None
            <==> next is Ok,
{
}

/// Whatever is asked for, there is a worker and there are not too many, and a number in between is
/// taken as it is.
pub proof fn law_worker_count_is_sane(asked: u32)
    ensures
        1 <= worker_count(asked) <= MAX_WORKERS,
        1 <= asked <= MAX_WORKERS ==> worker_count(asked) == asked,
{
}

/// A number is read as the signed one that it differs from by a multiple of 2 to the power of 32.
pub proof fn law_signed_reading_keeps_the_bits(n: u32)
    ensures
        as_signed(n) == n || as_signed(n) == n - 0x1_0000_0000,
        n <= i32::MAX ==> as_signed(n) == n,
{
}

/// One worker at least and sixteen at most, and otherwise as many as are asked for.
pub proof fn law_between_one_and_sixteen_workers(asked: u32)
    ensures
        asked == 0 ==> worker_count(asked) == 1,
        1 <= asked <= 16 ==> worker_count(asked) == asked,
        asked > 16 ==> worker_count(asked) == 16,
{
}

} // verus!
