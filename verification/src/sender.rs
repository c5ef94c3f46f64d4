//! The stage that talks to the front end: many small messages become a few large ones.

use crate::decimal::{decimal, push_decimal};
use crate::frames::{DecodedFrame, PreviewData};
use vstd::prelude::*;

verus! {

/// How long the sender waits for a message, in milliseconds, before it looks up again.
pub const SENDER_WAIT_MS: u64 = 500;

/// How long the sender rests after a batch, in milliseconds.
pub const SENDER_REST_MS: u64 = 100;

/// How often the sender reports that it is alive, in milliseconds.
pub const BEACON_MS: u64 = 1000;

/// What the sender does next.
#[derive(Clone, Copy, PartialEq, Eq, Structural)]
pub enum SenderStep {
    /// Leave the loop.
    Exit,
    /// Wait a while for a message, and drain the outbox whether or not one came.
    WaitThenDrain,
    /// Drain the outbox at once.
    Drain,
}

/// Decides what the sender does when it looks at the outbox.
pub fn sender_step(outbox_empty: bool, stopped: bool) -> (step: SenderStep)
    ensures
        step == if !outbox_empty {
            SenderStep::Drain
        } else if stopped {
            SenderStep::Exit
        } else {
            SenderStep::WaitThenDrain
        },
{
    if !outbox_empty {
        SenderStep::Drain
    } else if stopped {
        SenderStep::Exit
    } else {
        SenderStep::WaitThenDrain
    }
}

/// The codes of all messages of a batch, in order.
pub open spec fn all_codes(batch: Seq<DecodedFrame>) -> Seq<String>
    decreases batch.len(),
{
    if batch.len() == 0 {
        Seq::empty()
    } else {
        all_codes(batch.drop_last()) + batch.last().codes@
    }
}

/// The most recent preview of a batch.
pub open spec fn last_preview(batch: Seq<DecodedFrame>) -> Option<PreviewData>
    decreases batch.len(),
{
    if batch.len() == 0 {
        None
    } else if batch.last().preview is Some {
        batch.last().preview
    } else {
        last_preview(batch.drop_last())
    }
}

/// The highest capture count of a batch.
pub open spec fn max_captures(batch: Seq<DecodedFrame>) -> u32
    decreases batch.len(),
{
    if batch.len() == 0 {
        0
    } else {
        let before = max_captures(batch.drop_last());
        if batch.last().captures >= before {
            batch.last().captures
        } else {
            before
        }
    }
}

/// Whether `message` is what a batch comes to.
pub open spec fn coalesced(
    batch: Seq<DecodedFrame>,
    fps: [i32; 2],
    message: Option<DecodedFrame>,
) -> bool {
    &&& message is None <==> all_codes(batch).len() == 0 && last_preview(batch) is None
    &&& message matches Some(m) ==> {
        &&& m.codes@ == all_codes(batch)
        &&& m.fps == fps
        &&& m.preview == last_preview(batch)
        &&& m.captures == max_captures(batch)
    }
}

/// Merges a batch of messages into one: all codes, the most recent preview and the highest capture
/// count. A batch with neither code nor preview is not worth a message.
pub fn coalesce(batch: Vec<DecodedFrame>, fps: [i32; 2]) -> (message: Option<DecodedFrame>)
    ensures
        coalesced(batch@, fps, message),
{
    let mut codes: Vec<String> = Vec::new();
    let mut preview: Option<PreviewData> = None;
    let mut captures: u32 = 0;
    let ghost all = batch@;
    for f in it: batch
        invariant
            it.seq() == all,
            codes@ == all_codes(all.take(it.index())),
            preview == last_preview(all.take(it.index())),
            captures == max_captures(all.take(it.index())),
    {
        proof {
            assert(all.take(it.index() + 1).drop_last() =~= all.take(it.index()));
            assert(all.take(it.index() + 1).last() == f);
        }
        let mut more: Vec<String> = f.codes;
        codes.append(&mut more);
        if f.preview.is_some() {
            preview = f.preview;
        }
        if f.captures >= captures {
            captures = f.captures;
        }
    }
    assert(all.take(all.len() as int) =~= all);
    if codes.len() == 0 && preview.is_none() {
        return None;
    }
    Some(DecodedFrame { codes, fps, preview, captures })
}

/// What the sender does with a batch that it drained.
pub enum Delivery {
    /// Leave the loop; nothing is sent any more.
    Exit,
    /// The batch was empty.
    Nothing,
    /// Send the message, where there is one, and rest a while.
    SendThenRest(Option<DecodedFrame>),
}

/// Decides what the sender does with a batch that it drained. What a stopped sender drained is
/// dropped.
pub fn deliver(batch: Vec<DecodedFrame>, fps: [i32; 2], stopped: bool) -> (d: Delivery)
    ensures
        d is Exit <==> stopped,
        d is Nothing <==> !stopped && batch@.len() == 0,
        d matches Delivery::SendThenRest(message) ==> coalesced(batch@, fps, message),
{
    if stopped {
        Delivery::Exit
    } else if batch.len() == 0 {
        Delivery::Nothing
    } else {
        Delivery::SendThenRest(coalesce(batch, fps))
    }
}

/// Whether it is time to report that the sender is alive.
pub fn beacon_due(since_last_ms: u64) -> (due: bool)
    ensures
        due == (since_last_ms >= BEACON_MS),
{
    since_last_ms >= BEACON_MS
}

/// The counters of the pipeline.
#[derive(Clone, Copy)]
pub struct Counters {
    /// Frames that the camera delivered.
    pub captures: u32,
    /// Frames that the coordinator handed to the workers.
    pub coordinated: u32,
    /// Frames that a worker tried to decode.
    pub attempts: u32,
    /// Payloads that were decoded.
    pub decoded: u32,
    /// Payloads that were forwarded.
    pub forwarded: u32,
    /// The current generation of workers.
    pub generation: u32,
}

/// The line that reports the counters.
pub open spec fn beacon_text(c: Counters) -> Seq<char> {
    "alive caps="@ + decimal(c.captures as nat) + " coord="@ + decimal(c.coordinated as nat)
        + " att="@ + decimal(c.attempts as nat) + " dec="@ + decimal(c.decoded as nat) + " fwd="@
        + decimal(c.forwarded as nat) + " gen="@ + decimal(c.generation as nat)
}

/// Writes the line that reports the counters.
pub fn beacon_line(c: Counters) -> (line: String)
    ensures
        line@ == beacon_text(c),
{
    let mut line: String = String::new();
    line.append("alive caps=");
    push_decimal(&mut line, c.captures);
    line.append(" coord=");
    push_decimal(&mut line, c.coordinated);
    line.append(" att=");
    push_decimal(&mut line, c.attempts);
    line.append(" dec=");
    push_decimal(&mut line, c.decoded);
    line.append(" fwd=");
    push_decimal(&mut line, c.forwarded);
    line.append(" gen=");
    push_decimal(&mut line, c.generation);
    assert(line@ =~= beacon_text(c));
    line
}

/// Merging loses no code and makes none up, and it makes no difference where one batch ends and the
/// next begins: of two batches in a row the codes follow one another, the later preview counts, and
/// so does the higher capture count.
pub proof fn law_merging_in_pieces(a: Seq<DecodedFrame>, b: Seq<DecodedFrame>)
    ensures
        all_codes(a + b) == all_codes(a) + all_codes(b),
        last_preview(a + b) == if last_preview(b) is Some {
            last_preview(b)
        } else {
            last_preview(a)
        },
        max_captures(a + b) == if max_captures(b) >= max_captures(a) {
            max_captures(b)
        } else {
            max_captures(a)
        },
    decreases b.len(),
{
    if b.len() == 0 {
        assert(a + b =~= a);
        assert(all_codes(a) + all_codes(b) =~= all_codes(a));
    } else {
        law_merging_in_pieces(a, b.drop_last());
        assert((a + b).drop_last() =~= a + b.drop_last());
        assert(all_codes(a + b) =~= all_codes(a) + all_codes(b));
    }
}

/// A batch of one message comes to that message, and a batch of none to nothing.
pub proof fn law_merging_one_changes_nothing(m: DecodedFrame)
    ensures
        all_codes(seq![m]) == m.codes@,
        last_preview(seq![m]) == m.preview,
        max_captures(seq![m]) == m.captures,
        all_codes(Seq::<DecodedFrame>::empty()).len() == 0,
        last_preview(Seq::<DecodedFrame>::empty()) is None,
        max_captures(Seq::<DecodedFrame>::empty()) == 0,
{
    let one = seq![m];
    reveal_with_fuel(all_codes, 2);
    reveal_with_fuel(last_preview, 2);
    reveal_with_fuel(max_captures, 2);
    assert(one.drop_last() =~= Seq::empty());
    assert(one.last() == m);
    assert(all_codes(one) =~= m.codes@);
}

/// Every code of every message of a batch is in the merged message.
pub proof fn law_no_code_is_lost_in_merging(
    batch: Seq<DecodedFrame>,
    fps: [i32; 2],
    message: Option<DecodedFrame>,
    i: int,
    k: int,
)
    requires
        coalesced(batch, fps, message),
        0 <= i < batch.len(),
        0 <= k < batch[i].codes@.len(),
    ensures
        message matches Some(m) && m.codes@.contains(batch[i].codes@[k]) && m.fps == fps && m.captures
            >= batch[i].captures,
{
    let (a, b) = (batch.take(i), batch.skip(i));
    assert(batch =~= a + b);
    law_merging_in_pieces(a, b);
    let (c, d) = (b.take(1), b.skip(1));
    assert(b =~= c + d);
    law_merging_in_pieces(c, d);
    assert(c =~= seq![batch[i]]);
    law_merging_one_changes_nothing(batch[i]);
    let all = all_codes(batch);
    let j = all_codes(a).len() + k;
    assert(all[j as int] == batch[i].codes@[k]);
}

/// The line gives every counter its name and its numeral.
pub proof fn law_line_names_every_counter(c: Counters)
    ensures
        beacon_text(c) == "alive caps="@ + decimal(c.captures as nat) + (" coord="@ + decimal(
            c.coordinated as nat,
        )) + (" att="@ + decimal(c.attempts as nat)) + (" dec="@ + decimal(c.decoded as nat)) + (
        " fwd="@ + decimal(c.forwarded as nat)) + (" gen="@ + decimal(c.generation as nat)),
{
    assert(beacon_text(c) =~= "alive caps="@ + decimal(c.captures as nat) + (" coord="@ + decimal(
        c.coordinated as nat,
    )) + (" att="@ + decimal(c.attempts as nat)) + (" dec="@ + decimal(c.decoded as nat)) + (" fwd="@
        + decimal(c.forwarded as nat)) + (" gen="@ + decimal(c.generation as nat)));
}

/// Where any message of a batch has a preview, the merged message has that of the last such message.
pub proof fn law_latest_preview_is_sent(
    batch: Seq<DecodedFrame>,
    fps: [i32; 2],
    message: Option<DecodedFrame>,
    i: int,
)
    requires
        coalesced(batch, fps, message),
        0 <= i < batch.len(),
        batch[i].preview is Some,
        forall|j: int| i < j < batch.len() ==> (#[trigger] batch[j]).preview is None,
    ensures
        message matches Some(m) && m.preview == batch[i].preview,
{
    lemma_last_preview(batch, i);
}

/// The last preview is that of the last message that has one.
proof fn lemma_last_preview(batch: Seq<DecodedFrame>, i: int)
    requires
        0 <= i < batch.len(),
        batch[i].preview is Some,
        forall|j: int| i < j < batch.len() ==> (#[trigger] batch[j]).preview is None,
    ensures
        last_preview(batch) == batch[i].preview,
    decreases batch.len(),
{
    if i < batch.len() - 1 {
        let before = batch.drop_last();
        assert(batch[batch.len() - 1].preview is None);
        assert forall|j: int| i < j < before.len() implies (#[trigger] before[j]).preview is None by {
            assert(before[j] == batch[j]);
        }
        lemma_last_preview(before, i);
    }
}

/// A batch in which no message has a code or a preview is not worth a message; and what is sent has the
/// capture count of one of the messages, the highest.
pub proof fn law_nothing_to_say_is_not_sent(
    batch: Seq<DecodedFrame>,
    fps: [i32; 2],
    message: Option<DecodedFrame>,
)
    requires
        coalesced(batch, fps, message),
    ensures
        (forall|i: int|
            0 <= i < batch.len() ==> (#[trigger] batch[i]).codes@.len() == 0 && batch[i].preview is None)
            ==> message is None,
        message matches Some(m) ==> exists|i: int|
            0 <= i < batch.len() && (#[trigger] batch[i]).captures == m.captures,
        message matches Some(m) ==> forall|i: int|
            0 <= i < batch.len() ==> (#[trigger] batch[i]).captures <= m.captures,
{
    lemma_silent(batch);
    lemma_max_captures(batch);
}

/// Messages without codes and previews add up to none of either.
proof fn lemma_silent(batch: Seq<DecodedFrame>)
    ensures
        (forall|i: int|
            0 <= i < batch.len() ==> (#[trigger] batch[i]).codes@.len() == 0 && batch[i].preview is None)
            ==> all_codes(batch).len() == 0 && last_preview(batch) is None,
    decreases batch.len(),
{
    if batch.len() > 0 {
        let before = batch.drop_last();
        lemma_silent(before);
        if forall|i: int|
            0 <= i < batch.len() ==> (#[trigger] batch[i]).codes@.len() == 0 && batch[i].preview is None {
            assert forall|i: int| 0 <= i < before.len() implies (#[trigger] before[i]).codes@.len() == 0
                && before[i].preview is None by {
                assert(before[i] == batch[i]);
            }
            assert(batch[batch.len() - 1].codes@.len() == 0);
        }
    }
}

/// The highest capture count is that of a message, and none is higher.
proof fn lemma_max_captures(batch: Seq<DecodedFrame>)
    ensures
        batch.len() > 0 ==> exists|i: int|
            0 <= i < batch.len() && (#[trigger] batch[i]).captures == max_captures(batch),
        forall|i: int| 0 <= i < batch.len() ==> (#[trigger] batch[i]).captures <= max_captures(batch),
    decreases batch.len(),
{
    if batch.len() > 0 {
        let before = batch.drop_last();
        lemma_max_captures(before);
        assert forall|i: int| 0 <= i < batch.len() implies (#[trigger] batch[i]).captures
            <= max_captures(batch) by {
            if i < before.len() {
                assert(before[i] == batch[i]);
            }
        }
        if batch.last().captures >= max_captures(before) {
            assert(batch[batch.len() - 1].captures == max_captures(batch));
        } else {
            let i = choose|i: int|
                0 <= i < before.len() && (#[trigger] before[i]).captures == max_captures(before);
            assert(batch[i] == before[i]);
        }
    }
}

} // verus!
