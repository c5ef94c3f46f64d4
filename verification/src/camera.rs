//! The camera of a phone: what is acquired to open it, in what order it is released, and how a
//! running request is changed.

use vstd::prelude::*;
use vstd::string::StringExecFns;

verus! {

/// How many images the reader holds at most.
pub const READER_IMAGES: i32 = 4;

/// Focus that follows the scene by itself.
pub const AF_MODE_CONTINUOUS: u8 = 4;

/// No focus trigger.
pub const AF_TRIGGER_IDLE: u8 = 0;

/// The steps of opening a camera that can fail, in order.
#[derive(Clone, Copy, PartialEq, Eq, Structural)]
pub enum OpenStage {
    /// Make the camera manager.
    Manager,
    /// List the cameras.
    Ids,
    /// Make the image reader.
    Reader,
    /// Open the device.
    Device,
    /// Make the capture session.
    Session,
    /// No step is left: the camera streams.
    Streaming,
}

/// The step that follows one that succeeded.
pub open spec fn next_stage(stage: OpenStage) -> OpenStage {
    match stage {
        OpenStage::Manager => OpenStage::Ids,
        OpenStage::Ids => OpenStage::Reader,
        OpenStage::Reader => OpenStage::Device,
        OpenStage::Device => OpenStage::Session,
        OpenStage::Session => OpenStage::Streaming,
        OpenStage::Streaming => OpenStage::Streaming,
    }
}

/// One thing that is released.
#[derive(Clone, Copy, PartialEq, Eq, Structural)]
pub enum Release {
    DeleteIdList,
    StopRepeating,
    CloseSession,
    CloseDevice,
    DeleteReader,
    FreeRequest,
    FreeTarget,
    FreeContainer,
    FreeSessionOutput,
    DeleteManager,
    /// Give back the share of the frame context that the image callback held.
    DropContext,
}

/// What is to be done where a camera cannot be opened.
pub struct OpenFailure {
    /// What is released, in order.
    pub releases: Vec<Release>,
    /// The reason that is reported.
    pub reason: String,
}

/// The reason that is reported where a step fails.
pub open spec fn failure_reason(stage: OpenStage) -> Seq<char> {
    match stage {
        OpenStage::Manager => "ACameraManager_create failed"@,
        OpenStage::Ids => "no camera available"@,
        OpenStage::Reader => "AImageReader_new failed"@,
        OpenStage::Device => "ACameraManager_openCamera failed"@,
        OpenStage::Session => "createCaptureSession failed"@,
        OpenStage::Streaming => Seq::empty(),
    }
}

/// What is released where a step fails. A list of cameras may have come even where listing them
/// failed; once the device was asked for, the list is no longer held.
pub open spec fn failure_releases(stage: OpenStage, listed: bool) -> Seq<Release> {
    match stage {
        OpenStage::Manager => Seq::empty(),
        OpenStage::Ids => if listed {
            seq![Release::DeleteIdList, Release::DeleteManager]
        } else {
            seq![Release::DeleteManager]
        },
        OpenStage::Reader => seq![Release::DeleteIdList, Release::DeleteManager],
        OpenStage::Device => seq![
            Release::DeleteReader,
            Release::DropContext,
            Release::DeleteManager,
        ],
        OpenStage::Session => seq![
            Release::CloseDevice,
            Release::DeleteReader,
            Release::DropContext,
            Release::DeleteManager,
        ],
        OpenStage::Streaming => Seq::empty(),
    }
}

/// Whether listing the cameras gave any.
pub fn has_cameras(status_ok: bool, listed: bool, count: i32) -> (b: bool)
    ensures
        b == (status_ok && listed && count >= 1),
{
    status_ok && listed && count >= 1
}

/// How far the opening of a camera has come.
pub struct Opening {
    /// The step that is next.
    pub stage: OpenStage,
}

impl Opening {
    /// Nothing is done yet.
    pub fn new() -> (o: Self)
        ensures
            o.stage == OpenStage::Manager,
    {
        Opening { stage: OpenStage::Manager }
    }

    /// Settles the step that was next: goes on where it succeeded, or else says what is released and
    /// what is reported. Whether a list of cameras is held matters where listing them failed.
    pub fn settle(&mut self, ok: bool, listed: bool) -> (r: Result<(), OpenFailure>)
        requires
            old(self).stage != OpenStage::Streaming,
        ensures
            r is Ok <==> ok,
            final(self).stage == if ok {
                next_stage(old(self).stage)
            } else {
                old(self).stage
            },
            r matches Err(f) ==> {
                &&& f.releases@ == failure_releases(old(self).stage, listed)
                &&& f.reason@ == failure_reason(old(self).stage)
            },
    {
        if ok {
            self.stage = match self.stage {
                OpenStage::Manager => OpenStage::Ids,
                OpenStage::Ids => OpenStage::Reader,
                OpenStage::Reader => OpenStage::Device,
                OpenStage::Device => OpenStage::Session,
                _ => OpenStage::Streaming,
            };
            return Ok(());
        }
        let mut releases: Vec<Release> = Vec::new();
        let reason: String = match self.stage {
            OpenStage::Manager => String::from_str("ACameraManager_create failed"),
            OpenStage::Ids => {
                if listed {
                    releases.push(Release::DeleteIdList);
                }
                releases.push(Release::DeleteManager);
                String::from_str("no camera available")
            },
            OpenStage::Reader => {
                releases.push(Release::DeleteIdList);
                releases.push(Release::DeleteManager);
                String::from_str("AImageReader_new failed")
            },
            OpenStage::Device => {
                releases.push(Release::DeleteReader);
                releases.push(Release::DropContext);
                releases.push(Release::DeleteManager);
                String::from_str("ACameraManager_openCamera failed")
            },
            _ => {
                releases.push(Release::CloseDevice);
                releases.push(Release::DeleteReader);
                releases.push(Release::DropContext);
                releases.push(Release::DeleteManager);
                String::from_str("createCaptureSession failed")
            },
        };
        assert(releases@ =~= failure_releases(self.stage, listed));
        Err(OpenFailure { releases, reason })
    }
}

/// Which of the things that a camera may hold it does hold, and whether it still runs.
pub struct Camera {
    pub session: bool,
    pub device: bool,
    pub reader: bool,
    pub request: bool,
    pub target: bool,
    pub container: bool,
    pub session_output: bool,
    pub manager: bool,
    pub context: bool,
    /// Until the camera is closed.
    pub alive: bool,
}

/// A release where the thing is held.
pub open spec fn release_if(held: bool, release: Release) -> Seq<Release> {
    if held {
        seq![release]
    } else {
        Seq::empty()
    }
}

/// The order in which things are released when a camera is closed.
pub open spec fn close_order(i: int) -> Release {
    if i == 0 {
        Release::StopRepeating
    } else if i == 1 {
        Release::CloseSession
    } else if i == 2 {
        Release::CloseDevice
    } else if i == 3 {
        Release::DeleteReader
    } else if i == 4 {
        Release::FreeRequest
    } else if i == 5 {
        Release::FreeTarget
    } else if i == 6 {
        Release::FreeContainer
    } else if i == 7 {
        Release::FreeSessionOutput
    } else if i == 8 {
        Release::DeleteManager
    } else {
        Release::DropContext
    }
}

/// Where a release stands when a camera is closed.
pub open spec fn release_rank(release: Release) -> int {
    match release {
        Release::StopRepeating => 0,
        Release::CloseSession => 1,
        Release::CloseDevice => 2,
        Release::DeleteReader => 3,
        Release::FreeRequest => 4,
        Release::FreeTarget => 5,
        Release::FreeContainer => 6,
        Release::FreeSessionOutput => 7,
        Release::DeleteManager => 8,
        Release::DropContext => 9,
        Release::DeleteIdList => 10,
    }
}

/// Whether a camera holds what a release is about.
pub open spec fn holds(c: Camera, release: Release) -> bool {
    match release {
        Release::StopRepeating => c.session,
        Release::CloseSession => c.session,
        Release::CloseDevice => c.device,
        Release::DeleteReader => c.reader,
        Release::FreeRequest => c.request,
        Release::FreeTarget => c.target,
        Release::FreeContainer => c.container,
        Release::FreeSessionOutput => c.session_output,
        Release::DeleteManager => c.manager,
        Release::DropContext => c.context,
        Release::DeleteIdList => false,
    }
}

/// What is released of the first `n` things in that order.
pub open spec fn first_releases(c: Camera, n: int) -> Seq<Release>
    decreases n,
{
    if n <= 0 {
        Seq::empty()
    } else {
        first_releases(c, n - 1) + release_if(holds(c, close_order(n - 1)), close_order(n - 1))
    }
}

/// What is released when a camera is closed, in order.
pub open spec fn close_releases(c: Camera) -> Seq<Release> {
    first_releases(c, 10)
}

/// Adds a release to a plan where the thing is held.
fn plan(releases: &mut Vec<Release>, held: bool, release: Release)
    ensures
        final(releases)@ == old(releases)@ + release_if(held, release),
{
    if held {
        releases.push(release);
    }
    assert(releases@ =~= old(releases)@ + release_if(held, release));
}

/// One change of a running request.
#[derive(Clone, Copy, PartialEq, Eq, Structural)]
pub enum RequestEdit {
    /// Set the exposure compensation, in the device's steps.
    Compensation(i32),
    /// Lock the exposure, or unlock it.
    AeLock(u8),
    /// Set the focus trigger.
    AfTrigger(u8),
    /// Capture one image with the request as it stands.
    CaptureOnce,
    /// Repeat the request as it stands.
    Repeat,
}

/// The changes that a running request goes through. A focus trigger takes effect with one image and
/// is set back, so that the repeated request does not trigger again and again.
pub open spec fn request_edits(ev_units: Option<i32>, ae_lock: Option<u8>, af_trigger: Option<u8>) -> Seq<
    RequestEdit,
> {
    (match ev_units {
        Some(u) => seq![RequestEdit::Compensation(u)],
        None => Seq::empty(),
    }) + (match ae_lock {
        Some(l) => seq![RequestEdit::AeLock(l)],
        None => Seq::empty(),
    }) + (match af_trigger {
        Some(t) => seq![
            RequestEdit::AfTrigger(t),
            RequestEdit::CaptureOnce,
            RequestEdit::AfTrigger(AF_TRIGGER_IDLE),
        ],
        None => Seq::empty(),
    }) + seq![RequestEdit::Repeat]
}

impl Camera {
    /// A camera that streams. The session, the device, the reader, the manager and the context were
    /// checked on the way; the rest was made without a check, and may be missing.
    pub fn open(request: bool, target: bool, container: bool, session_output: bool) -> (c: Self)
        ensures
            c == (Camera {
                session: true,
                device: true,
                reader: true,
                request,
                target,
                container,
                session_output,
                manager: true,
                context: true,
                alive: true,
            }),
    {
        Camera {
            session: true,
            device: true,
            reader: true,
            request,
            target,
            container,
            session_output,
            manager: true,
            context: true,
            alive: true,
        }
    }

    /// Closes the camera. Returns what is released, in order.
    pub fn close(&mut self) -> (releases: Vec<Release>)
        requires
            old(self).alive,
        ensures
            *final(self) == (Camera { alive: false, ..*old(self) }),
            releases@ == close_releases(*old(self)),
    {
        self.alive = false;
        let mut releases: Vec<Release> = Vec::new();
        plan(&mut releases, self.session, Release::StopRepeating);
        plan(&mut releases, self.session, Release::CloseSession);
        plan(&mut releases, self.device, Release::CloseDevice);
        plan(&mut releases, self.reader, Release::DeleteReader);
        plan(&mut releases, self.request, Release::FreeRequest);
        plan(&mut releases, self.target, Release::FreeTarget);
        plan(&mut releases, self.container, Release::FreeContainer);
        plan(&mut releases, self.session_output, Release::FreeSessionOutput);
        plan(&mut releases, self.manager, Release::DeleteManager);
        plan(&mut releases, self.context, Release::DropContext);
        proof {
            reveal_with_fuel(first_releases, 11);
        }
        releases
    }

    /// The changes that the running request goes through; nothing where the camera was closed, and
    /// there is no request any more.
    pub fn edit_request(
        &self,
        ev_units: Option<i32>,
        ae_lock: Option<u8>,
        af_trigger: Option<u8>,
    ) -> (edits: Option<Vec<RequestEdit>>)
        ensures
            edits is Some <==> self.alive,
            edits matches Some(e) ==> e@ == request_edits(ev_units, ae_lock, af_trigger),
    {
        if !self.alive {
            return None;
        }
        let mut edits: Vec<RequestEdit> = Vec::new();
        if let Some(u) = ev_units {
            edits.push(RequestEdit::Compensation(u));
        }
        if let Some(l) = ae_lock {
            edits.push(RequestEdit::AeLock(l));
        }
        if let Some(t) = af_trigger {
            edits.push(RequestEdit::AfTrigger(t));
            edits.push(RequestEdit::CaptureOnce);
            edits.push(RequestEdit::AfTrigger(AF_TRIGGER_IDLE));
        }
        edits.push(RequestEdit::Repeat);
        assert(edits@ =~= request_edits(ev_units, ae_lock, af_trigger));
        Some(edits)
    }
}

/// Whether the releases of a plan stand in order, all of them before rank `rank`.
pub open spec fn in_order(plan: Seq<Release>, rank: int) -> bool {
    &&& forall|i: int, j: int|
        0 <= i < j < plan.len() ==> release_rank(#[trigger] plan[i]) < release_rank(
            #[trigger] plan[j],
        )
    &&& forall|i: int| 0 <= i < plan.len() ==> release_rank(#[trigger] plan[i]) < rank
}

/// The first `n` things are released in order, those that are held and no others.
proof fn lemma_first_releases(c: Camera, n: int)
    requires
        0 <= n <= 10,
    ensures
        in_order(first_releases(c, n), n),
        forall|r: Release| #[trigger]
            first_releases(c, n).contains(r) <==> holds(c, r) && release_rank(r) < n,
    decreases n,
{
    if n > 0 {
        lemma_first_releases(c, n - 1);
        let release = close_order(n - 1);
        let shorter = first_releases(c, n - 1);
        let longer = first_releases(c, n);
        assert(release_rank(release) == n - 1);
        if holds(c, release) {
            assert(longer =~= shorter.push(release));
            assert forall|r: Release| #[trigger] longer.contains(r) <==> holds(c, r) && release_rank(r)
                < n by {
                if longer.contains(r) {
                    let i = longer.index_of(r);
                    assert(i < shorter.len() ==> shorter[i] == r);
                    assert(i < shorter.len() ==> shorter.contains(r));
                } else if shorter.contains(r) {
                    assert(longer[shorter.index_of(r)] == r);
                } else if r == release {
                    assert(longer[shorter.len() as int] == r);
                }
            }
        } else {
            assert(longer =~= shorter);
        }
    }
}

/// Closing a camera releases everything that it holds and nothing else, each once, and always in the
/// same order. So the image callback's context is given back last, when the session is closed and
/// the reader deleted and no callback can run any more.
pub proof fn law_close_releases_what_is_held(c: Camera)
    ensures
        in_order(close_releases(c), 10),
        forall|r: Release| #[trigger] close_releases(c).contains(r) <==> holds(c, r),
        c.context ==> close_releases(c).last() == Release::DropContext,
{
    lemma_first_releases(c, 10);
    if c.context {
        assert(close_releases(c) =~= first_releases(c, 9).push(Release::DropContext));
    }
}

/// Wherever opening a camera fails once the manager is there, the manager is deleted, last of all;
/// and wherever the image callback's context is given back, the reader was deleted just before.
pub proof fn law_failure_leaves_no_callback(stage: OpenStage, listed: bool)
    requires
        stage != OpenStage::Manager,
        stage != OpenStage::Streaming,
    ensures
        failure_releases(stage, listed).last() == Release::DeleteManager,
        forall|i: int|
            0 <= i < failure_releases(stage, listed).len() && #[trigger] failure_releases(
                stage,
                listed,
            )[i] == Release::DropContext ==> i > 0 && failure_releases(stage, listed)[i - 1]
                == Release::DeleteReader,
{
}

/// However a running request was changed, in the end it is repeated, and no focus trigger is left in
/// it.
pub proof fn law_edits_end_idle(ev_units: Option<i32>, ae_lock: Option<u8>, af_trigger: Option<u8>)
    ensures
        request_edits(ev_units, ae_lock, af_trigger).last() == RequestEdit::Repeat,
        forall|i: int|
            0 <= i < request_edits(ev_units, ae_lock, af_trigger).len() && (#[trigger] request_edits(
                ev_units,
                ae_lock,
                af_trigger,
            )[i] is AfTrigger) && request_edits(ev_units, ae_lock, af_trigger)[i]
                != RequestEdit::AfTrigger(AF_TRIGGER_IDLE) ==> i + 2 < request_edits(
                ev_units,
                ae_lock,
                af_trigger,
            ).len() && request_edits(ev_units, ae_lock, af_trigger)[i + 2] == RequestEdit::AfTrigger(
                AF_TRIGGER_IDLE,
            ),
{
}

/// Closing a camera stops the stream, closes the session, then the device, deletes the reader, frees the
/// request, its target, the outputs and their container, and deletes the manager, before it gives back
/// the context: of any two of these that are done, the one named first is done first.
pub proof fn law_releases_keep_their_order(c: Camera, i: int, j: int)
    requires
        0 <= i < j < close_releases(c).len(),
    ensures
        ({
            let place = |r: Release|
                match r {
                    Release::StopRepeating => 0int,
                    Release::CloseSession => 1,
                    Release::CloseDevice => 2,
                    Release::DeleteReader => 3,
                    Release::FreeRequest => 4,
                    Release::FreeTarget => 5,
                    Release::FreeContainer => 6,
                    Release::FreeSessionOutput => 7,
                    Release::DeleteManager => 8,
                    Release::DropContext => 9,
                    Release::DeleteIdList => 10,
                };
            place(close_releases(c)[i]) < place(close_releases(c)[j])
        }),
{
    law_close_releases_what_is_held(c);
}

/// A thing is released exactly where it is held, and its stream is stopped with its session.
pub proof fn law_what_is_held_is_released(c: Camera)
    ensures
        close_releases(c).contains(Release::StopRepeating) == c.session,
        close_releases(c).contains(Release::CloseSession) == c.session,
        close_releases(c).contains(Release::CloseDevice) == c.device,
        close_releases(c).contains(Release::DeleteReader) == c.reader,
        close_releases(c).contains(Release::FreeRequest) == c.request,
        close_releases(c).contains(Release::FreeTarget) == c.target,
        close_releases(c).contains(Release::FreeContainer) == c.container,
        close_releases(c).contains(Release::FreeSessionOutput) == c.session_output,
        close_releases(c).contains(Release::DeleteManager) == c.manager,
        close_releases(c).contains(Release::DropContext) == c.context,
        !close_releases(c).contains(Release::DeleteIdList),
{
    law_close_releases_what_is_held(c);
}

/// A running request is changed in one order: the compensation, the exposure lock, the focus trigger,
/// each only where it is asked for and with the very value that is asked for. A trigger takes effect
/// with one image and is set back.
pub proof fn law_edits_are_those_asked_for(
    ev_units: Option<i32>,
    ae_lock: Option<u8>,
    af_trigger: Option<u8>,
)
    ensures
        ({
            let edits = request_edits(ev_units, ae_lock, af_trigger);
            let a = if ev_units is Some {
                1int
            } else {
                0
            };
            let b = if ae_lock is Some {
                a + 1
            } else {
                a
            };
            let c = if af_trigger is Some {
                b + 3
            } else {
                b
            };
            &&& edits.len() == c + 1
            &&& ev_units matches Some(u) ==> edits[0] == RequestEdit::Compensation(u)
            &&& ae_lock matches Some(l) ==> edits[a] == RequestEdit::AeLock(l)
            &&& af_trigger matches Some(t) ==> edits[b] == RequestEdit::AfTrigger(t) && edits[b + 1]
                == RequestEdit::CaptureOnce && edits[b + 2] == RequestEdit::AfTrigger(0)
            &&& edits[c] == RequestEdit::Repeat
        }),
{
}

} // verus!
