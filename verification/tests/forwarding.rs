//! Forwarding each frame once, and merging messages.

use opfer::dedup::{is_encodable, SeenFrames};
use opfer::frames::{DecodedFrame, PreviewData};
use opfer::header::frame_id;
use opfer::sender::{
    beacon_due, beacon_line, coalesce, deliver, sender_step, Counters, Delivery, SenderStep,
};
use opfer::decoder::Decoded;
use opfer::worker::{
    is_retired, recovered, settle_job, worker_leaves, worker_names, worker_step,
};
use opfer::coordinator::FrameStep;

fn head(session: u16, seq: u32) -> Vec<u8> {
    let mut p = vec![0xd1, 0x0c];
    p.extend_from_slice(&session.to_le_bytes());
    p.extend_from_slice(&seq.to_le_bytes());
    p.resize(20, 0);
    p
}

fn message(codes: &[&str], preview: Option<&str>, captures: u32) -> DecodedFrame {
    DecodedFrame {
        codes: codes.iter().map(|c| c.to_string()).collect(),
        fps: [1, 1],
        preview: preview.map(|g| PreviewData { w: 1, h: 1, gray: g.to_string(), orientation: 0 }),
        captures,
    }
}

#[test]
fn the_head_tells_session_and_number() {
    assert_eq!(frame_id(&head(0x1234, 0x89ab_cdef)), Some((0x1234, 0x89ab_cdef)));
    assert_eq!(frame_id(&head(0, 0)), Some((0, 0)));
}

#[test]
fn short_or_foreign_payloads_have_no_head() {
    assert_eq!(frame_id(&head(1, 2)[..19]), None);
    assert_eq!(frame_id(&[]), None);
    let mut other = head(1, 2);
    other[1] = 0x0d;
    assert_eq!(frame_id(&other), None);
    other[1] = 0x0c;
    other[0] = 0xd0;
    assert_eq!(frame_id(&other), None);
}

#[test]
fn a_frame_is_forwarded_once() {
    let mut seen = SeenFrames::new();
    let first = seen.forward(&vec![head(5, 1), head(5, 2), head(5, 1)]);
    assert_eq!(first.len(), 2);
    assert_eq!(first[0], "0QwFAAEAAAAAAAAAAAAAAAAAAAA=");
    assert_eq!(first[1], "0QwFAAIAAAAAAAAAAAAAAAAAAAA=");
    assert!(seen.forward(&vec![head(5, 2), head(5, 1)]).is_empty());
}

#[test]
fn a_new_session_starts_over() {
    let mut seen = SeenFrames::new();
    assert_eq!(seen.forward(&vec![head(5, 1), head(6, 1), head(6, 1), head(5, 1)]).len(), 3);
}

#[test]
fn session_zero_is_a_session_like_any_other() {
    let mut seen = SeenFrames::new();
    assert_eq!(seen.forward(&vec![head(0, 0), head(0, 0)]).len(), 1);
}

#[test]
fn payloads_without_a_head_always_pass() {
    let mut seen = SeenFrames::new();
    let plain = b"hello".to_vec();
    assert_eq!(seen.forward(&vec![plain.clone(), plain.clone()]), vec!["aGVsbG8=", "aGVsbG8="]);
    assert_eq!(seen.forward(&vec![plain]), vec!["aGVsbG8="]);
}

#[test]
fn base64_is_filled_up_to_groups_of_four() {
    let mut seen = SeenFrames::new();
    let ps: Vec<Vec<u8>> =
        ["", "f", "fo", "foo", "foob"].iter().map(|s| s.as_bytes().to_vec()).collect();
    assert!(is_encodable(&ps));
    assert_eq!(seen.forward(&ps), vec!["", "Zg==", "Zm8=", "Zm9v", "Zm9vYg=="]);
    assert_eq!(seen.forward(&vec![vec![0xfb, 0xff, 0xfe]]), vec!["+//+"]);
}

#[test]
fn a_job_reports_what_it_decoded_and_forwards() {
    let mut seen = SeenFrames::new();
    let ps = vec![head(5, 1), head(5, 1), b"x".to_vec()];
    let report = settle_job(&mut seen, &ps, false, [30, 60], 17);
    assert_eq!((report.decoded, report.forwarded), (3, 2));
    let message = report.message.unwrap();
    assert_eq!(message.codes, vec!["0QwFAAEAAAAAAAAAAAAAAAAAAAA=", "eA=="]);
    assert_eq!((message.fps, message.captures), ([30, 60], 17));
    assert!(message.preview.is_none());
    let again = settle_job(&mut seen, &vec![head(5, 1)], false, [30, 60], 18);
    assert_eq!((again.decoded, again.forwarded), (1, 0));
    assert!(again.message.is_none());
}

#[test]
fn a_stopped_job_leaves_no_trace() {
    let mut seen = SeenFrames::new();
    let report = settle_job(&mut seen, &vec![head(5, 1)], true, [30, 30], 1);
    assert_eq!((report.decoded, report.forwarded), (0, 0));
    assert!(report.message.is_none());
    assert_eq!(settle_job(&mut seen, &vec![head(5, 1)], false, [30, 30], 1).forwarded, 1);
}

#[test]
fn an_empty_job_gives_no_message() {
    let report = settle_job(&mut SeenFrames::new(), &vec![], false, [30, 30], 1);
    assert_eq!((report.decoded, report.forwarded), (0, 0));
    assert!(report.message.is_none());
}

#[test]
fn workers_leave_when_stopped_or_retired() {
    assert!(worker_step(true, false, false) == FrameStep::Wait);
    assert!(worker_step(true, true, false) == FrameStep::Exit);
    assert!(worker_step(true, false, true) == FrameStep::Exit);
    assert!(worker_step(false, true, false) == FrameStep::Exit);
    assert!(worker_step(false, false, false) == FrameStep::Take);
    assert!(worker_step(false, false, true) == FrameStep::Take);
    assert!(worker_leaves(true));
    assert!(!worker_leaves(false));
    assert!(is_retired(2, 1));
    assert!(!is_retired(3, 3));
}

#[test]
fn workers_are_named_by_generation() {
    assert_eq!(worker_names(0, 2), vec!["opfer-worker0-0", "opfer-worker0-1"]);
    assert_eq!(worker_names(120, 12)[10], "opfer-worker120-10");
    assert!(worker_names(1, 0).is_empty());
}

#[test]
fn a_batch_becomes_one_message() {
    let batch = vec![
        message(&["a", "b"], None, 3),
        message(&[], Some("one"), 9),
        message(&["c"], Some("two"), 4),
        message(&[], None, 5),
    ];
    let m = coalesce(batch, [24, 24]).unwrap();
    assert_eq!(m.codes, vec!["a", "b", "c"]);
    assert_eq!(m.preview.unwrap().gray, "two");
    assert_eq!((m.fps, m.captures), ([24, 24], 9));
}

#[test]
fn merging_in_pieces_gives_the_same() {
    let parts = || vec![message(&["a"], Some("p"), 2), message(&["b"], None, 7), message(&["c"], None, 1)];
    let whole = coalesce(parts(), [5, 5]).unwrap();
    let mut head = parts();
    let tail = head.split_off(1);
    let first = coalesce(head, [5, 5]).unwrap();
    let second = coalesce(tail, [5, 5]).unwrap();
    let merged = coalesce(vec![first, second], [5, 5]).unwrap();
    assert_eq!(merged.codes, whole.codes);
    assert_eq!(merged.captures, whole.captures);
    assert_eq!(merged.preview.unwrap().gray, whole.preview.unwrap().gray);
}

#[test]
fn a_batch_with_nothing_to_say_gives_no_message() {
    assert!(coalesce(vec![], [1, 1]).is_none());
    assert!(coalesce(vec![message(&[], None, 8)], [1, 1]).is_none());
    assert!(coalesce(vec![message(&[], Some("p"), 8)], [1, 1]).is_some());
}

#[test]
fn the_sender_drains_waits_or_leaves() {
    assert!(sender_step(true, true) == SenderStep::Exit);
    assert!(sender_step(true, false) == SenderStep::WaitThenDrain);
    assert!(sender_step(false, true) == SenderStep::Drain);
    assert!(sender_step(false, false) == SenderStep::Drain);
}

#[test]
fn a_drained_batch_is_sent_unless_stopped() {
    assert!(matches!(deliver(vec![message(&["a"], None, 1)], [1, 1], true), Delivery::Exit));
    assert!(matches!(deliver(vec![], [1, 1], false), Delivery::Nothing));
    assert!(matches!(
        deliver(vec![message(&[], None, 1)], [1, 1], false),
        Delivery::SendThenRest(None)
    ));
    assert!(matches!(
        deliver(vec![message(&["a"], None, 1)], [1, 1], false),
        Delivery::SendThenRest(Some(_))
    ));
}

#[test]
fn the_beacon_tells_all_counters() {
    assert!(!beacon_due(999));
    assert!(beacon_due(1000));
    let line = beacon_line(Counters {
        captures: 120,
        coordinated: 119,
        attempts: 7,
        decoded: 0,
        forwarded: 4294967295,
        generation: 10,
    });
    assert_eq!(line, "alive caps=120 coord=119 att=7 dec=0 fwd=4294967295 gen=10");
}

#[test]
fn a_lost_frame_gives_nothing() {
    let d = recovered(None);
    assert_eq!((d.payloads.len(), d.attempts, d.detected), (0, 0, 0));
    let d = recovered(Some(Decoded { payloads: vec![vec![1]], attempts: 2, detected: 1 }));
    assert_eq!((d.payloads, d.attempts, d.detected), (vec![vec![1]], 2, 1));
}
