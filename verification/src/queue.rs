//! Hand-over between the stages of the pipeline. No stage waits for the next: what does not fit, or
//! comes too late, is dropped, and the freshest is kept.

use crate::frames::{DecodedFrame, LumaFrame};
use std::collections::VecDeque;
use vstd::prelude::*;

verus! {

/// How many messages wait for the sender at most. Losing a few is free, since the frames are
/// redundant; a stalled pipeline is not.
pub const OUTBOX_MAX: usize = 16;

/// The last `max` items of `s`, or all where there are no more.
pub open spec fn freshest<T>(s: Seq<T>, max: int) -> Seq<T> {
    if s.len() <= max {
        s
    } else {
        s.skip(s.len() - max)
    }
}

/// A queue that never blocks and never holds more than `max` items: a push into a full queue drops
/// the oldest.
pub struct DropOldest<T> {
    items: VecDeque<T>,
    max: usize,
}

impl<T> View for DropOldest<T> {
    type V = Seq<T>;

    closed spec fn view(&self) -> Seq<T> {
        self.items@
    }
}

impl<T> DropOldest<T> {
    /// How many items the queue holds at most.
    pub closed spec fn limit(&self) -> nat {
        self.max as nat
    }

    /// The queue has room for an item, and holds no more than it may.
    pub open spec fn wf(&self) -> bool {
        &&& self.limit() > 0
        &&& self@.len() <= self.limit()
    }

    /// An empty queue for at most `max` items.
    pub fn new(max: usize) -> (q: Self)
        requires
            max > 0,
        ensures
            q.wf(),
            q.limit() == max,
            q@ == Seq::<T>::empty(),
    {
        DropOldest { items: VecDeque::new(), max }
    }

    /// Adds an item at the back, and drops the oldest where there are too many.
    pub fn push(&mut self, item: T)
        requires
            old(self).wf(),
        ensures
            final(self).wf(),
            final(self).limit() == old(self).limit(),
            final(self)@ == freshest(old(self)@.push(item), old(self).limit() as int),
    {
        let ghost start = self.items@;
        while self.items.len() >= self.max
            invariant
                self.max > 0,
                self.max == old(self).max,
                start == old(self)@,
                start.len() <= self.max,
                self.items@ == start || start.len() == self.max && self.items@ == start.skip(1),
            decreases self.items@.len(),
        {
            let _oldest: Option<T> = self.items.pop_front();
            assert(self.items@ =~= start.skip(1));
        }
        self.items.push_back(item);
        assert(self.items@ =~= freshest(start.push(item), self.max as int));
    }

    /// Takes the oldest item out.
    pub fn pop(&mut self) -> (item: Option<T>)
        requires
            old(self).wf(),
        ensures
            final(self).wf(),
            final(self).limit() == old(self).limit(),
            old(self)@.len() == 0 ==> item is None && final(self)@ == old(self)@,
            old(self)@.len() > 0 ==> item == Some(old(self)@[0]) && final(self)@ == old(self)@.skip(1),
    {
        let ghost start = self.items@;
        let item: Option<T> = self.items.pop_front();
        assert(start.len() > 0 ==> self.items@ =~= start.skip(1));
        item
    }

    /// Takes all items out, oldest first.
    pub fn drain(&mut self) -> (out: Vec<T>)
        requires
            old(self).wf(),
        ensures
            final(self).wf(),
            final(self).limit() == old(self).limit(),
            final(self)@ == Seq::<T>::empty(),
            out@ == old(self)@,
    {
        let mut out: Vec<T> = Vec::new();
        let ghost start = self.items@;
        assert(out@ + self.items@ =~= start);
        while self.items.len() > 0
            invariant
                self.max == old(self).max,
                out@ + self.items@ == start,
            decreases self.items@.len(),
        {
            let ghost before = self.items@;
            let ghost taken = out@;
            if let Some(item) = self.items.pop_front() {
                out.push(item);
                assert(out@ + self.items@ =~= taken + before);
            }
        }
        assert(out@ =~= start);
        out
    }

    /// Whether the queue holds nothing.
    pub fn is_empty(&self) -> (b: bool)
        ensures
            b == (self@.len() == 0),
    {
        self.items.len() == 0
    }
}

/// The queue of messages that wait for the sender.
pub fn new_outbox() -> (q: DropOldest<DecodedFrame>)
    ensures
        q.wf(),
        q.limit() == OUTBOX_MAX,
        q@ == Seq::<DecodedFrame>::empty(),
{
    DropOldest::new(OUTBOX_MAX)
}

/// The most recent camera frame that no one has taken yet.
pub struct Latest {
    frame: Option<LumaFrame>,
}

impl View for Latest {
    type V = Option<LumaFrame>;

    closed spec fn view(&self) -> Option<LumaFrame> {
        self.frame
    }
}

impl Latest {
    /// No frame yet.
    pub fn new() -> (s: Self)
        ensures
            s@ is None,
    {
        Latest { frame: None }
    }

    /// Puts a camera frame in place of the one before, unless capture was stopped. Returns whether
    /// the frame was stored, and so counts as captured.
    pub fn store_frame(&mut self, frame: LumaFrame, stopped: bool) -> (stored: bool)
        ensures
            stored == !stopped,
            final(self)@ == if stopped {
                old(self)@
            } else {
                Some(frame)
            },
    {
        if stopped {
            return false;
        }
        self.frame = Some(frame);
        true
    }

    /// Takes the frame out.
    pub fn take(&mut self) -> (frame: Option<LumaFrame>)
        ensures
            frame == old(self)@,
            final(self)@ is None,
    {
        self.frame.take()
    }

    /// Whether there is a frame to take.
    pub fn is_ready(&self) -> (b: bool)
        ensures
            b == (self@ is Some),
    {
        self.frame.is_some()
    }
}

/// All that was pushed, one after the other.
pub open spec fn pushed_all<T>(q: Seq<T>, items: Seq<T>, max: int) -> Seq<T>
    decreases items.len(),
{
    if items.len() == 0 {
        q
    } else {
        freshest(pushed_all(q, items.drop_last(), max).push(items.last()), max)
    }
}

/// However many items are pushed, the queue holds the freshest of all that ever came in, in order,
/// and never more than its limit.
pub proof fn law_pushes_keep_the_freshest<T>(q: Seq<T>, items: Seq<T>, max: int)
    requires
        0 < max,
        q.len() <= max,
    ensures
        pushed_all(q, items, max) == freshest(q + items, max),
        pushed_all(q, items, max).len() <= max,
    decreases items.len(),
{
    if items.len() == 0 {
        assert(q + items =~= q);
    } else {
        law_pushes_keep_the_freshest(q, items.drop_last(), max);
        assert(q + items =~= (q + items.drop_last()).push(items.last()));
        assert(pushed_all(q, items, max) =~= freshest(q + items, max));
    }
}

/// A push leaves the new item last and all items before it in their order; the one item that may go is
/// the oldest, and it goes only where the queue was full.
pub proof fn law_push_drops_only_the_oldest<T>(q: Seq<T>, item: T, max: int)
    requires
        0 < max,
        q.len() <= max,
    ensures
        freshest(q.push(item), max).last() == item,
        q.len() < max ==> freshest(q.push(item), max).drop_last() == q,
        q.len() == max ==> freshest(q.push(item), max).drop_last() == q.skip(1),
{
    assert(q.push(item).drop_last() =~= q);
    if q.len() == max {
        assert(freshest(q.push(item), max).drop_last() =~= q.skip(1));
    }
}

} // verus!
