//! The workers, the only stage that decodes: what one does next, and what becomes of a decoded frame.

use crate::coordinator::FrameStep;
use crate::decimal::{decimal, push_decimal};
use crate::decoder::Decoded;
use crate::dedup::{
    base64_texts, encodable, first_sighting, fresh, law_first_sightings_are_forwarded_whole,
    law_forwards_no_more_than_decoded, law_texts_tell_the_payloads, noted_all, picks, texts,
    SeenFrames,
};
use crate::encoding::base64_text;
use crate::frames::DecodedFrame;
use crate::payload::byte_strings;
use vstd::prelude::*;
use vstd::string::StringExecFns;

verus! {

/// Whether a worker was retired: a later generation has taken over.
pub fn is_retired(current_generation: u32, own_generation: u32) -> (b: bool)
    ensures
        b == (current_generation != own_generation),
{
    current_generation != own_generation
}

/// Decides what a worker does when it looks at the queue of frames. One that is retired between the
/// top of its loop and this look still takes a frame that waits.
pub fn worker_step(queue_empty: bool, stopped: bool, retired: bool) -> (step: FrameStep)
    ensures
        step == step_after((WorkerLook { queue_empty, stopped, retired })),
{
    if stopped || queue_empty && retired {
        FrameStep::Exit
    } else if queue_empty {
        FrameStep::Wait
    } else {
        FrameStep::Take
    }
}

/// Whether a worker leaves at the top of its loop, before it looks at the queue.
pub fn worker_leaves(retired: bool) -> (b: bool)
    ensures
        b == retired,
{
    retired
}

/// What a look of a worker at the queue finds: whether it is empty, whether capture was stopped, and
/// whether the worker is retired.
pub struct WorkerLook {
    pub queue_empty: bool,
    pub stopped: bool,
    pub retired: bool,
}

/// What a worker does after a look.
pub open spec fn step_after(look: WorkerLook) -> FrameStep {
    if look.stopped || look.queue_empty && look.retired {
        FrameStep::Exit
    } else if look.queue_empty {
        FrameStep::Wait
    } else {
        FrameStep::Take
    }
}

/// What a turn of a worker's loop comes to: it leaves at the top where it is retired, or else looks
/// at the queue until it leaves or takes a frame. It still waits where the looks give out.
pub open spec fn turn(retired: bool, looks: Seq<WorkerLook>) -> FrameStep
    decreases looks.len(),
{
    if retired {
        FrameStep::Exit
    } else if looks.len() == 0 {
        FrameStep::Wait
    } else if step_after(looks[0]) == FrameStep::Wait {
        turn(retired, looks.skip(1))
    } else {
        step_after(looks[0])
    }
}

/// A worker that is retired when its turn begins, or stopped when it first looks, leaves without
/// taking a frame, however many wait.
pub proof fn law_retired_workers_take_nothing(retired: bool, looks: Seq<WorkerLook>)
    requires
        retired || looks.len() > 0 && looks[0].stopped,
    ensures
        turn(retired, looks) == FrameStep::Exit,
{
}

/// What a worker goes on with, given what a frame decoded to: nothing where it was lost, or the reader
/// failed on it.
pub fn recovered(decoded: Option<Decoded>) -> (d: Decoded)
    ensures
        decoded matches Some(x) ==> d == x,
        decoded is None ==> d.payloads@.len() == 0 && d.attempts == 0 && d.detected == 0,
{
    match decoded {
        Some(d) => d,
        None => Decoded { payloads: Vec::new(), attempts: 0, detected: 0 },
    }
}

/// The name of worker `i` of a generation.
pub open spec fn worker_name(generation: u32, i: int) -> Seq<char> {
    "opfer-worker"@ + decimal(generation as nat) + "-"@ + decimal(i as nat)
}

/// The names of the workers of a generation.
pub fn worker_names(generation: u32, workers: u32) -> (names: Vec<String>)
    ensures
        names@.len() == workers,
        forall|i: int| 0 <= i < workers ==> (#[trigger] names@[i])@ == worker_name(generation, i),
{
    let mut names: Vec<String> = Vec::new();
    for i in 0..workers
        invariant
            names@.len() == i,
            forall|k: int| 0 <= k < i ==> (#[trigger] names@[k])@ == worker_name(generation, k),
    {
        let mut name: String = String::new();
        name.append("opfer-worker");
        push_decimal(&mut name, generation);
        name.append("-");
        push_decimal(&mut name, i);
        assert(name@ =~= worker_name(generation, i as int));
        names.push(name);
    }
    names
}

/// What a decoded frame adds to the counters, and the message that it gives.
pub struct JobReport {
    /// How many payloads were decoded.
    pub decoded: u32,
    /// How many of them are forwarded.
    pub forwarded: u32,
    /// The message for the sender, where anything is forwarded.
    pub message: Option<DecodedFrame>,
}

/// Whether `report` is what decoded payloads come to, given what was seen before. A counter keeps
/// the low 32 bits of a count.
pub open spec fn job_report(
    seen: (u16, Set<u32>),
    payloads: Seq<Seq<u8>>,
    fps: [i32; 2],
    captures: u32,
    report: JobReport,
) -> bool {
    let forwarded = fresh(seen, payloads);
    &&& report.decoded == payloads.len() % 0x1_0000_0000
    &&& report.forwarded == forwarded.len() % 0x1_0000_0000
    &&& report.message is Some <==> forwarded.len() > 0
    &&& report.message matches Some(m) ==> {
        &&& texts(m.codes@) == base64_texts(forwarded)
        &&& m.fps == fps
        &&& m.preview is None
        &&& m.captures == captures
    }
}

/// A count, as a counter keeps it.
fn counted(n: usize) -> (c: u32)
    ensures
        c == n as int % 0x1_0000_0000,
{
    let wide: u64 = n as u64;
    assert(wide as u32 == wide % 0x1_0000_0000) by (bit_vector);
    wide as u32
}

/// Settles what a worker decoded out of a frame: new payloads are forwarded, and counted. Nothing is
/// forwarded, noted or counted once capture was stopped.
pub fn settle_job(
    seen: &mut SeenFrames,
    payloads: &Vec<Vec<u8>>,
    stopped: bool,
    fps: [i32; 2],
    captures: u32,
) -> (report: JobReport)
    requires
        encodable(payloads@),
    ensures
        stopped ==> final(seen)@ == old(seen)@ && report.decoded == 0 && report.forwarded == 0
            && report.message is None,
        !stopped ==> final(seen)@ == noted_all(old(seen)@, byte_strings(payloads@)),
        !stopped ==> job_report(old(seen)@, byte_strings(payloads@), fps, captures, report),
{
    if stopped || payloads.len() == 0 {
        return JobReport { decoded: 0, forwarded: 0, message: None };
    }
    let ghost forwarded = fresh(seen@, byte_strings(payloads@));
    let codes: Vec<String> = seen.forward(payloads);
    assert(texts(codes@).len() == codes@.len());
    assert(base64_texts(forwarded).len() == forwarded.len());
    assert(byte_strings(payloads@).len() == payloads@.len());
    let decoded: u32 = counted(payloads.len());
    let count: u32 = counted(codes.len());
    if codes.len() == 0 {
        return JobReport { decoded, forwarded: count, message: None };
    }
    JobReport {
        decoded,
        forwarded: count,
        message: Some(DecodedFrame { codes, fps, preview: None, captures }),
    }
}

/// The message of a frame carries a code for each payload that is sighted for the first time, in the
/// order in which they were decoded, and each code is the text of that payload with every byte of it.
pub proof fn law_message_carries_first_sightings_whole(
    seen: (u16, Set<u32>),
    payloads: Seq<Seq<u8>>,
    fps: [i32; 2],
    captures: u32,
    report: JobReport,
)
    requires
        job_report(seen, payloads, fps, captures, report),
        report.message is Some,
    ensures
        exists|places: Seq<int>|
            #![trigger places.len()]
            {
                &&& places.len() == (report.message->0).codes@.len()
                &&& forall|a: int, b: int|
                    0 <= a < b < places.len() ==> #[trigger] places[a] < #[trigger] places[b]
                &&& forall|i: int|
                    0 <= i < payloads.len() ==> (#[trigger] first_sighting(seen, payloads, i)
                        <==> places.contains(i))
                &&& forall|a: int|
                    0 <= a < places.len() ==> 0 <= #[trigger] places[a] < payloads.len() && (
                    report.message->0).codes@[a]@ == base64_text(payloads[places[a]])
            },
        (report.message->0).preview is None,
        (report.message->0).fps == fps,
        (report.message->0).captures == captures,
{
    let forwarded = fresh(seen, payloads);
    let codes = (report.message->0).codes@;
    law_first_sightings_are_forwarded_whole(seen, payloads);
    law_texts_tell_the_payloads(forwarded, forwarded);
    let places = choose|places: Seq<int>| #[trigger]
        picks(payloads, places, forwarded) && forall|i: int|
            0 <= i < payloads.len() ==> (#[trigger] first_sighting(seen, payloads, i)
                <==> places.contains(i));
    assert(texts(codes).len() == codes.len());
    assert forall|a: int| 0 <= a < places.len() implies 0 <= #[trigger] places[a] < payloads.len()
        && codes[a]@ == base64_text(payloads[places[a]]) by {
        assert(texts(codes)[a] == codes[a]@);
        assert(base64_texts(forwarded)[a] == base64_text(forwarded[a]));
    }
    assert(places.len() == codes.len());
}

/// A frame gives a message exactly where one of its payloads is sighted for the first time, and counts
/// every payload that was decoded.
pub proof fn law_message_where_anything_is_new(
    seen: (u16, Set<u32>),
    payloads: Seq<Seq<u8>>,
    fps: [i32; 2],
    captures: u32,
    report: JobReport,
)
    requires
        job_report(seen, payloads, fps, captures, report),
        payloads.len() < 0x1_0000_0000,
    ensures
        report.message is Some <==> exists|i: int|
            0 <= i < payloads.len() && #[trigger] first_sighting(seen, payloads, i),
        report.decoded == payloads.len(),
        report.forwarded == match report.message {
            Some(m) => m.codes@.len(),
            None => 0,
        },
{
    let forwarded = fresh(seen, payloads);
    law_first_sightings_are_forwarded_whole(seen, payloads);
    law_forwards_no_more_than_decoded(seen, payloads);
    let places = choose|places: Seq<int>| #[trigger]
        picks(payloads, places, forwarded) && forall|i: int|
            0 <= i < payloads.len() ==> (#[trigger] first_sighting(seen, payloads, i)
                <==> places.contains(i));
    if forwarded.len() > 0 {
        assert(places.contains(places[0]));
        assert(first_sighting(seen, payloads, places[0]));
    }
    if let Some(m) = report.message {
        assert(texts(m.codes@).len() == m.codes@.len());
        assert(base64_texts(forwarded).len() == forwarded.len());
    }
}

/// A worker is named by its generation and its number in it, both in digits.
pub proof fn law_workers_are_named_by_number(generation: u32, i: int)
    requires
        0 <= i,
    ensures
        ({
            let g = decimal(generation as nat);
            let name = worker_name(generation, i);
            let n = "opfer-worker"@.len() as int;
            &&& name.take(n) == "opfer-worker"@
            &&& name.subrange(n, n + g.len()) == g
            &&& name[n + g.len()] == '-'
            &&& name.skip(n + g.len() + 1) == decimal(i as nat)
        }),
{
    reveal_strlit("-");
    let g = decimal(generation as nat);
    let name = worker_name(generation, i);
    let n = "opfer-worker"@.len() as int;
    assert(name.take(n) =~= "opfer-worker"@);
    assert(name.subrange(n, n + g.len()) =~= g);
    assert(name.skip(n + g.len() + 1) =~= decimal(i as nat));
}

} // verus!
