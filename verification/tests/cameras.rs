//! Choosing, opening, tuning and closing the camera of a phone.

use opfer::camera::{has_cameras, Camera, OpenStage, Opening, Release, RequestEdit};
use opfer::camera_choice::{rate_camera, select_camera, CameraInfo, CameraRequest};
use opfer::tuning::{
    clamp_units, compensation_range, counted_since, TuneAction, TuneEvent, TuneNote, Tuner, MIN_RATIO,
};

const YUV: i32 = 35;

fn camera(facing: Option<u8>, sizes: &[(i32, i32)], rates: &[i32]) -> CameraInfo {
    let mut configs = Vec::new();
    for (w, h) in sizes {
        configs.extend_from_slice(&[YUV, *w, *h, 0]);
    }
    CameraInfo { facing, orientation: vec![90, 5], configs, fps_ranges: rates.to_vec() }
}

fn request(w: i32, h: i32, fps: u32) -> CameraRequest {
    CameraRequest { format: YUV, w, h, fps }
}

#[test]
fn a_camera_is_scored_by_what_it_offers() {
    let all = camera(Some(1), &[(1280, 720), (4000, 3000)], &[15, 30, 60, 60]);
    assert_eq!(rate_camera(&all, &request(1280, 720, 60)), (1_000_000 + 400_000 + 200_000 + 1200, 1280, 720));
    let front = camera(Some(0), &[(1000, 1000)], &[15, 30]);
    assert_eq!(rate_camera(&front, &request(1280, 720, 60)), (100, 1000, 1000));
    let silent = camera(None, &[], &[]);
    assert_eq!(rate_camera(&silent, &request(640, 480, 30)), (1_000_000, 640, 480));
}

#[test]
fn inputs_other_formats_and_leftovers_do_not_count() {
    let mut odd = camera(Some(0), &[], &[30]);
    odd.configs = vec![YUV, 100, 100, 1, 256, 200, 200, 0, YUV, 10, 10, 0, YUV, 300, 300];
    assert_eq!(rate_camera(&odd, &request(100, 100, 30)), (0, 10, 10));
}

#[test]
fn the_closest_area_is_taken_and_the_first_of_equals() {
    let cam = camera(Some(1), &[(100, 100), (300, 300), (190, 200), (200, 210)], &[]);
    let (_, w, h) = rate_camera(&cam, &request(200, 200, 30));
    assert_eq!((w, h), (190, 200));
}

#[test]
fn the_best_camera_is_chosen_and_the_first_of_equals() {
    let front = camera(Some(0), &[(1280, 720)], &[60, 60]);
    let small = camera(Some(1), &[(640, 480)], &[30, 30]);
    let good = camera(Some(1), &[(1280, 720)], &[30, 60]);
    let twin = camera(Some(1), &[(1280, 720)], &[30, 60]);
    let choice = select_camera(
        &vec![None, Some(front), Some(small), Some(good), Some(twin)],
        &request(1280, 720, 60),
    );
    assert_eq!((choice.index, choice.w, choice.h, choice.orientation), (3, 1280, 720, 90));
}

#[test]
fn preferences_come_in_order() {
    let req = request(1280, 720, 60);
    let back = camera(Some(1), &[(10, 10)], &[]);
    let sized = camera(Some(0), &[(1280, 720)], &[60, 60]);
    assert!(rate_camera(&back, &req).0 > rate_camera(&sized, &req).0);
    let fast = camera(Some(0), &[(40000, 40000)], &[60, 60]);
    assert!(rate_camera(&sized, &req).0 > rate_camera(&fast, &req).0);
    let slow = camera(Some(0), &[(1280, 720)], &[30, 30]);
    assert!(rate_camera(&sized, &req).0 > rate_camera(&slow, &req).0);
}

#[test]
fn without_any_answer_the_first_camera_is_taken() {
    let choice = select_camera(&vec![None, None], &request(1920, 1080, 30));
    assert_eq!((choice.index, choice.w, choice.h, choice.orientation), (0, 1920, 1080, 0));
    let mut mute = camera(Some(0), &[], &[]);
    mute.orientation = vec![];
    let choice = select_camera(&vec![Some(mute)], &request(1920, 1080, 30));
    assert_eq!((choice.index, choice.orientation), (0, 0));
}

#[test]
fn each_step_of_opening_fails_in_its_own_way() {
    let fail = |stage, listed| {
        let f = Opening { stage }.settle(false, listed).err().unwrap();
        (f.releases, f.reason)
    };
    let (r, why) = fail(OpenStage::Manager, false);
    assert!(r.is_empty());
    assert_eq!(why, "ACameraManager_create failed");
    let (r, why) = fail(OpenStage::Ids, true);
    assert!(r == vec![Release::DeleteIdList, Release::DeleteManager]);
    assert_eq!(why, "no camera available");
    let (r, _) = fail(OpenStage::Ids, false);
    assert!(r == vec![Release::DeleteManager]);
    let (r, why) = fail(OpenStage::Reader, true);
    assert!(r == vec![Release::DeleteIdList, Release::DeleteManager]);
    assert_eq!(why, "AImageReader_new failed");
    let (r, why) = fail(OpenStage::Device, true);
    assert!(r == vec![Release::DeleteReader, Release::DropContext, Release::DeleteManager]);
    assert_eq!(why, "ACameraManager_openCamera failed");
    let (r, why) = fail(OpenStage::Session, true);
    assert!(
        r == vec![
            Release::CloseDevice,
            Release::DeleteReader,
            Release::DropContext,
            Release::DeleteManager,
        ]
    );
    assert_eq!(why, "createCaptureSession failed");
    assert!(has_cameras(true, true, 1));
    assert!(!has_cameras(true, true, 0));
    assert!(!has_cameras(false, true, 1));
    assert!(!has_cameras(true, false, 1));
}

#[test]
fn the_steps_of_opening_follow_one_another() {
    let mut opening = Opening::new();
    for stage in [
        OpenStage::Manager,
        OpenStage::Ids,
        OpenStage::Reader,
        OpenStage::Device,
        OpenStage::Session,
    ] {
        assert!(opening.stage == stage);
        assert!(opening.settle(true, true).is_ok());
    }
    assert!(opening.stage == OpenStage::Streaming);
    let mut failing = Opening::new();
    assert!(failing.settle(false, false).is_err());
    assert!(failing.stage == OpenStage::Manager);
}

#[test]
fn closing_releases_everything_in_order() {
    let mut c = Camera::open(true, true, true, true);
    assert!(
        c.close()
            == vec![
                Release::StopRepeating,
                Release::CloseSession,
                Release::CloseDevice,
                Release::DeleteReader,
                Release::FreeRequest,
                Release::FreeTarget,
                Release::FreeContainer,
                Release::FreeSessionOutput,
                Release::DeleteManager,
                Release::DropContext,
            ]
    );
    assert!(!c.alive);
    let mut bare = Camera::open(false, false, true, false);
    assert!(
        bare.close()
            == vec![
                Release::StopRepeating,
                Release::CloseSession,
                Release::CloseDevice,
                Release::DeleteReader,
                Release::FreeContainer,
                Release::DeleteManager,
                Release::DropContext,
            ]
    );
}

#[test]
fn a_running_request_is_changed_and_repeated() {
    let mut c = Camera::open(true, true, true, true);
    assert!(
        c.edit_request(Some(-4), None, None).unwrap()
            == vec![RequestEdit::Compensation(-4), RequestEdit::Repeat]
    );
    assert!(
        c.edit_request(None, Some(1), Some(1)).unwrap()
            == vec![
                RequestEdit::AeLock(1),
                RequestEdit::AfTrigger(1),
                RequestEdit::CaptureOnce,
                RequestEdit::AfTrigger(0),
                RequestEdit::Repeat,
            ]
    );
    c.close();
    assert!(c.edit_request(Some(0), None, None).is_none());
}

fn bits(ratio: f32) -> u32 {
    ratio.to_bits()
}

fn set_ev(ev: i32) -> TuneAction {
    TuneAction::Apply { ev: Some(ev), ae_lock: None, af_trigger: None }
}

fn set_lock(ae: u8, af: u8) -> TuneAction {
    TuneAction::Apply { ev: None, ae_lock: Some(ae), af_trigger: Some(af) }
}

#[test]
fn the_threshold_is_the_bit_pattern_of_its_value() {
    assert_eq!(MIN_RATIO, bits(0.55));
    assert!(bits(0.0) < bits(0.25) && bits(0.25) < bits(0.5499) && bits(0.56) < bits(3.0));
}

#[test]
fn the_sweep_keeps_the_best_exposure() {
    let (mut t, first) = Tuner::begin(false, true);
    assert!(first == TuneAction::Sleep(700));
    assert!(t.next(TuneEvent::Went) == (None, set_ev(-2)));
    let ratios = [0.2f32, 0.7, 0.7, 0.1];
    for (i, ratio) in ratios.iter().enumerate() {
        assert!(
            t.next(TuneEvent::Went)
                == (None, TuneAction::Measure { settle_ms: 450, window_ms: 550 })
        );
        let event = TuneEvent::Measured { attempts: 30, ratio: bits(*ratio) };
        let expected = if i < 3 { set_ev(-3 - i as i32) } else { set_ev(-3) };
        assert!(t.next(event) == (None, expected));
    }
    assert!(
        t.next(TuneEvent::Went)
            == (Some(TuneNote::Tuned { ev: -3, ratio: bits(0.7) }), TuneAction::Finish)
    );
}

#[test]
fn without_any_decode_the_first_exposure_is_kept() {
    let (mut t, _) = Tuner::begin(true, true);
    t.next(TuneEvent::Went);
    let mut last = TuneAction::Finish;
    for _ in 0..4 {
        t.next(TuneEvent::Went);
        last = t.next(TuneEvent::Measured { attempts: 0, ratio: bits(0.0) }).1;
    }
    assert!(last == set_ev(-2));
    assert!(
        t.next(TuneEvent::Went)
            == (Some(TuneNote::Tuned { ev: -2, ratio: 0 }), TuneAction::Sleep(400))
    );
}

#[test]
fn a_good_lock_is_kept() {
    let (mut t, first) = Tuner::begin(true, false);
    assert!(first == TuneAction::Sleep(1000));
    assert!(t.next(TuneEvent::Went) == (None, set_lock(1, 1)));
    assert!(
        t.next(TuneEvent::Went) == (None, TuneAction::Measure { settle_ms: 0, window_ms: 1500 })
    );
    assert!(
        t.next(TuneEvent::Measured { attempts: 20, ratio: bits(0.55) })
            == (Some(TuneNote::Locked { ratio: bits(0.55), tries: 0 }), TuneAction::Finish)
    );
}

#[test]
fn a_lock_with_little_to_judge_it_by_is_kept() {
    let (mut t, _) = Tuner::begin(true, false);
    t.next(TuneEvent::Went);
    t.next(TuneEvent::Went);
    assert!(
        t.next(TuneEvent::Measured { attempts: 19, ratio: bits(0.0) })
            == (Some(TuneNote::Locked { ratio: bits(0.0), tries: 0 }), TuneAction::Finish)
    );
}

#[test]
fn a_poor_lock_is_tried_again_twice() {
    let (mut t, _) = Tuner::begin(true, false);
    let poor = TuneEvent::Measured { attempts: 50, ratio: bits(0.3) };
    for n in 1..=2u32 {
        t.next(TuneEvent::Went);
        t.next(TuneEvent::Went);
        assert!(
            t.next(poor)
                == (Some(TuneNote::Refocusing { ratio: bits(0.3), tries: n }), set_lock(0, 2))
        );
        assert!(t.next(TuneEvent::Went) == (None, TuneAction::Sleep(1000)));
    }
    t.next(TuneEvent::Went);
    t.next(TuneEvent::Went);
    assert!(
        t.next(poor) == (Some(TuneNote::Locked { ratio: bits(0.3), tries: 2 }), TuneAction::Finish)
    );
}

#[test]
fn a_camera_that_is_gone_ends_the_tuning() {
    let (mut t, _) = Tuner::begin(true, true);
    t.next(TuneEvent::Went);
    assert!(t.next(TuneEvent::Gone) == (None, TuneAction::Finish));
    assert!(t.next(TuneEvent::Went) == (None, TuneAction::Finish));
    assert!(Tuner::begin(false, false).1 == TuneAction::Finish);
}

#[test]
fn compensation_is_held_to_the_range() {
    assert_eq!(clamp_units(-5, [-4, 4]), -4);
    assert_eq!(clamp_units(9, [-4, 4]), 4);
    assert_eq!(clamp_units(3, [-4, 4]), 3);
    assert_eq!(clamp_units(0, [5, 2]), 2);
    assert_eq!(compensation_range(&vec![-12, 12, 7]), [-12, 12]);
    assert_eq!(compensation_range(&vec![-12]), [-24, 24]);
    assert_eq!(counted_since(3, 10), 7);
    assert_eq!(counted_since(4294967290, 4), 10);
}
