//! Queues, the coordinator, the watchdog, sessions and the display.

use opfer::awake::{execution_state, AwakeAction, KeepAwake};
use opfer::coordinator::{coordinator_step, preview_due, preview_message, FrameStep};
use opfer::desktop;
use opfer::frames::{DecodedFrame, LumaFrame};
use opfer::queue::{new_outbox, DropOldest, Latest, OUTBOX_MAX};
use opfer::permissions::grants;
use opfer::session::{keep_waiting, open_failed, start, stop, CameraKind, CaptureConfig, SessionSlot};
use opfer::watchdog::{Watchdog, WatchdogAction, MAX_RESPAWNS};

#[test]
fn a_full_queue_drops_the_oldest() {
    let mut q: DropOldest<u32> = DropOldest::new(3);
    for i in 0..5u32 {
        q.push(i);
    }
    assert_eq!(q.pop(), Some(2));
    q.push(5);
    q.push(6);
    assert_eq!(q.drain(), vec![4, 5, 6]);
    assert!(q.is_empty());
    assert_eq!(q.pop(), None);
}

#[test]
fn the_outbox_keeps_the_freshest_messages() {
    let mut q = new_outbox();
    for i in 0..20u32 {
        q.push(DecodedFrame { codes: vec![], fps: [0, 0], preview: None, captures: i });
    }
    let kept: Vec<u32> = q.drain().iter().map(|m| m.captures).collect();
    assert_eq!(kept.len(), OUTBOX_MAX);
    assert_eq!(kept, (4..20).collect::<Vec<u32>>());
}

#[test]
fn the_latest_frame_replaces_the_one_before() {
    let mut slot = Latest::new();
    assert!(!slot.is_ready());
    assert!(slot.store_frame(LumaFrame { luma: vec![1], w: 1, h: 1 }, false));
    assert!(slot.store_frame(LumaFrame { luma: vec![2], w: 1, h: 1 }, false));
    assert!(!slot.store_frame(LumaFrame { luma: vec![3], w: 1, h: 1 }, true));
    assert!(slot.is_ready());
    assert_eq!(slot.take().unwrap().luma, vec![2]);
    assert!(slot.take().is_none());
}

#[test]
fn the_coordinator_waits_takes_or_leaves() {
    assert!(coordinator_step(false, false) == FrameStep::Wait);
    assert!(coordinator_step(true, false) == FrameStep::Take);
    assert!(coordinator_step(false, true) == FrameStep::Exit);
    assert!(coordinator_step(true, true) == FrameStep::Exit);
    assert!(!preview_due(299));
    assert!(preview_due(300));
}

#[test]
fn a_preview_message_carries_the_thumbnail_alone() {
    let frame = LumaFrame { luma: vec![0x4d, 0x61, 0x6e], w: 3, h: 1 };
    let m = preview_message(&frame, 90, [60, 60], 42).unwrap();
    assert!(m.codes.is_empty());
    assert_eq!((m.fps, m.captures), ([60, 60], 42));
    let p = m.preview.unwrap();
    assert_eq!((p.w, p.h, p.gray.as_str(), p.orientation), (3, 1, "TWFu", 90));
    let broken = LumaFrame { luma: vec![1], w: 3, h: 1 };
    assert!(preview_message(&broken, 90, [60, 60], 42).is_none());
}

#[test]
fn two_stalls_in_a_row_replace_the_workers() {
    let mut dog = Watchdog::new(10, 100);
    assert!(dog.look(10, 101) == WatchdogAction::Nothing);
    assert!(dog.look(10, 102) == WatchdogAction::Respawn(1));
    assert!(dog.look(10, 103) == WatchdogAction::Nothing);
    assert!(dog.look(10, 104) == WatchdogAction::Respawn(2));
}

#[test]
fn a_healthy_look_forgets_a_stall() {
    let mut dog = Watchdog::new(10, 100);
    assert!(dog.look(10, 101) == WatchdogAction::Nothing);
    assert!(dog.look(11, 102) == WatchdogAction::Nothing);
    assert!(dog.look(11, 103) == WatchdogAction::Nothing);
    assert!(dog.look(11, 103) == WatchdogAction::Nothing);
    assert!(dog.look(11, 104) == WatchdogAction::Nothing);
    assert!(dog.look(11, 105) == WatchdogAction::Respawn(1));
}

#[test]
fn the_watchdog_gives_up_in_the_end() {
    let mut dog = Watchdog::new(0, 0);
    let mut captures = 0;
    for n in 1..=MAX_RESPAWNS {
        captures += 1;
        assert!(dog.look(0, captures) == WatchdogAction::Nothing);
        captures += 1;
        assert!(dog.look(0, captures) == WatchdogAction::Respawn(n));
    }
    assert!(dog.look(0, captures + 1) == WatchdogAction::Nothing);
    assert!(dog.look(0, captures + 2) == WatchdogAction::GiveUp);
}

#[test]
fn what_a_session_goes_by() {
    let c = CaptureConfig::new(60, 2, 4, true);
    assert_eq!((c.fps_range, c.workers, c.work_max, c.grid, c.sharpen), ([60, 60], 4, 6, 2, true));
    let low = CaptureConfig::new(30, 0, 0, false);
    assert_eq!((low.workers, low.work_max, low.grid, low.sharpen), (1, 3, 1, false));
    let high = CaptureConfig::new(0xffff_ffff, 9, 99, false);
    assert_eq!((high.fps_range, high.workers, high.work_max, high.grid), ([-1, -1], 16, 18, 9));
}

#[test]
fn one_session_at_a_time() {
    let mut slot: SessionSlot<u8> = SessionSlot::new();
    assert!(slot.claim().is_ok());
    slot.hold(7);
    assert_eq!(slot.claim(), Err("camera already running".to_string()));
    assert_eq!(stop(&mut slot), Some(7));
    assert!(slot.claim().is_ok());
    assert_eq!(stop(&mut slot), None);
}

#[test]
fn a_second_start_is_refused_and_opens_nothing() {
    let mut slot: SessionSlot<u8> = SessionSlot::new();
    assert_eq!(start(&mut slot, CameraKind::Desktop, || Ok(7)), Ok(()));
    let refused = start(&mut slot, CameraKind::Desktop, || panic!("a camera was opened"));
    assert_eq!(refused, Err("camera already running".to_string()));
    assert_eq!(stop(&mut slot), Some(7));
    assert_eq!(start(&mut slot, CameraKind::Desktop, || Ok(8)), Ok(()));
}

#[test]
fn a_failed_start_leaves_nothing() {
    let mut slot: SessionSlot<u8> = SessionSlot::new();
    let failed = start(&mut slot, CameraKind::Desktop, || Err("open: busy".to_string()));
    assert_eq!(failed, Err("camera open failed: open: busy".to_string()));
    let failed = start(&mut slot, CameraKind::Native, || Err("no camera available".to_string()));
    assert_eq!(failed, Err("camera2 open failed: no camera available".to_string()));
    assert_eq!(start(&mut slot, CameraKind::Native, || Ok(1)), Ok(()));
    assert_eq!(stop(&mut slot), Some(1));
}

#[test]
fn camera_and_microphone_are_granted() {
    assert!(grants(1) && grants(2));
    assert!(!grants(0) && !grants(3) && !grants(-1));
}

#[test]
fn a_start_does_not_wait_for_ever() {
    assert!(keep_waiting(false, 0));
    assert!(keep_waiting(false, 1499));
    assert!(!keep_waiting(false, 1500));
    assert!(!keep_waiting(true, 0));
}

#[test]
fn failures_to_open_name_the_camera() {
    assert_eq!(open_failed(CameraKind::Native, "no camera available"), "camera2 open failed: no camera available");
    assert_eq!(open_failed(CameraKind::Desktop, "x"), "camera open failed: x");
}

#[test]
fn a_desktop_camera_opens_fails_or_times_out() {
    let mut camera = desktop::Camera::open(Some(Ok(()))).ok().unwrap();
    assert!(camera.captures(false));
    assert!(!camera.captures(true));
    assert!(
        camera.close() == vec![desktop::CloseStep::TellThread, desktop::CloseStep::JoinThread]
    );
    assert!(!camera.captures(false));
    assert_eq!(desktop::Camera::open(Some(Err("open: busy".into()))).err().unwrap(), "open: busy");
    assert_eq!(desktop::Camera::open(None).err().unwrap(), "camera open timed out");
}

#[test]
fn desktop_sizes_and_reasons() {
    assert_eq!(desktop::requested_side(-5), 1);
    assert_eq!(desktop::requested_side(0), 1);
    assert_eq!(desktop::requested_side(1280), 1280);
    assert_eq!(desktop::stage_failed(desktop::OpenStage::Spawn, "a"), "spawn: a");
    assert_eq!(desktop::stage_failed(desktop::OpenStage::Open, "b"), "open: b");
    assert_eq!(desktop::stage_failed(desktop::OpenStage::Stream, "c"), "stream: c");
}

#[test]
fn the_display_is_held_and_let_go_in_turn() {
    let mut s = KeepAwake::new();
    assert!(s.set(false) == AwakeAction::Nothing);
    assert!(s.set(true) == AwakeAction::Hold);
    assert!(s.set(true) == AwakeAction::Nothing);
    assert!(s.set(false) == AwakeAction::LetGo);
    assert!(s.set(false) == AwakeAction::Nothing);
    assert!(s.set(true) == AwakeAction::Hold);
    assert_eq!(execution_state(true), 0x8000_0003);
    assert_eq!(execution_state(false), 0x8000_0000);
}
