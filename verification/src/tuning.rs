//! Tuning the exposure and the focus of a running camera by how well it decodes.
//!
//! A decode ratio is held as the bit pattern of the single-precision number that it is. Ratios are
//! not negative, and such numbers are ordered as their bit patterns are.

use vstd::prelude::*;

verus! {

/// How long the exposure is left to settle before it is tuned, in milliseconds.
pub const SETTLE_MS: u64 = 700;

/// How long a new exposure is left to settle, and how long it is then measured, in milliseconds.
pub const SWEEP_SETTLE_MS: u64 = 450;

pub const SWEEP_WINDOW_MS: u64 = 550;

/// How many exposures are tried.
pub const CANDIDATES: u32 = 4;

/// The exposure bias to begin with, in half steps.
pub const FIRST_EV: i32 = -3;

/// How long focus and exposure are left to converge before they are locked, in milliseconds: less
/// where the exposure was tuned before.
pub const CONVERGE_MS: u64 = 1000;

pub const CONVERGE_TUNED_MS: u64 = 400;

/// How long a lock is judged, in milliseconds.
pub const EVAL_MS: u64 = 1500;

/// With fewer attempts than this a lock is not judged.
pub const MIN_ATTEMPTS: u32 = 20;

/// The ratio from which on a lock is good: the bit pattern of 0.55.
pub const MIN_RATIO: u32 = 0x3f0c_cccd;

/// How often a poor lock is released and tried again.
pub const MAX_TRIES: u32 = 2;

/// The exposure bias that is tried at number `n`, in half steps: one step down, and half a step more
/// each time.
pub open spec fn candidate(n: u32) -> i32 {
    (-2 - n) as i32
}

/// How far the tuning has come: what it waits for.
#[derive(Clone, Copy, PartialEq, Eq, Structural)]
pub enum TunePhase {
    /// The exposure settles.
    Settling,
    /// The exposure with this number is set.
    Exposing(u32),
    /// The exposure with this number is measured.
    Measuring(u32),
    /// The best exposure is set.
    Keeping,
    /// Focus and exposure converge.
    Converging,
    /// Focus and exposure are locked.
    Locking,
    /// The lock is judged.
    Judging,
    /// The lock is released.
    Releasing,
    /// Nothing more is to be done.
    Done,
}

/// What came of an action.
#[derive(Clone, Copy, PartialEq, Eq, Structural)]
pub enum TuneEvent {
    /// The camera was stopped or closed.
    Gone,
    /// The action was done.
    Went,
    /// The camera was measured: how many frames were tried, and what share of them decoded.
    Measured { attempts: u32, ratio: u32 },
}

/// What is to be done.
#[derive(Clone, Copy, PartialEq, Eq, Structural)]
pub enum TuneAction {
    /// Sleep so many milliseconds.
    Sleep(u64),
    /// Change the running request: the exposure bias in half steps, the exposure lock, the focus
    /// trigger.
    Apply { ev: Option<i32>, ae_lock: Option<u8>, af_trigger: Option<u8> },
    /// Wait for the camera to settle, and measure it.
    Measure { settle_ms: u64, window_ms: u64 },
    /// Leave the loop.
    Finish,
}

/// What is to be reported.
#[derive(Clone, Copy, PartialEq, Eq, Structural)]
pub enum TuneNote {
    /// The exposure was tuned.
    Tuned { ev: i32, ratio: u32 },
    /// The lock is kept.
    Locked { ratio: u32, tries: u32 },
    /// The lock is poor and is tried again.
    Refocusing { ratio: u32, tries: u32 },
}

/// The state of the tuning.
#[derive(Clone, Copy, PartialEq, Eq, Structural)]
pub struct Tuner {
    /// Whether focus and exposure are to be locked.
    pub lock: bool,
    /// Whether the exposure is to be tuned.
    pub ev_auto: bool,
    pub phase: TunePhase,
    /// The best exposure so far, and its ratio.
    pub best_ev: i32,
    pub best_ratio: Option<u32>,
    /// How often a poor lock was released.
    pub tries: u32,
}

/// A step of the tuning: the new state, what is to be reported, and what is to be done.
pub struct TuneStep {
    pub tuner: Tuner,
    pub note: Option<TuneNote>,
    pub action: TuneAction,
}

/// How long focus and exposure are left to converge.
pub open spec fn converge_ms(ev_auto: bool) -> u64 {
    if ev_auto {
        CONVERGE_TUNED_MS
    } else {
        CONVERGE_MS
    }
}

/// A step that goes on to another phase.
pub open spec fn goes(t: Tuner, phase: TunePhase, action: TuneAction) -> TuneStep {
    TuneStep { tuner: Tuner { phase, ..t }, note: None, action }
}

/// The step that ends the tuning.
pub open spec fn ends(t: Tuner) -> TuneStep {
    goes(t, TunePhase::Done, TuneAction::Finish)
}

/// The step that begins with the lock, where one is asked for.
pub open spec fn locks(t: Tuner) -> TuneStep {
    if t.lock {
        goes(t, TunePhase::Converging, TuneAction::Sleep(converge_ms(t.ev_auto)))
    } else {
        ends(t)
    }
}

/// An action that sets the exposure bias.
pub open spec fn set_ev(ev: i32) -> TuneAction {
    TuneAction::Apply { ev: Some(ev), ae_lock: None, af_trigger: None }
}

/// An action that sets the exposure lock and the focus trigger.
pub open spec fn set_lock(ae_lock: u8, af_trigger: u8) -> TuneAction {
    TuneAction::Apply { ev: None, ae_lock: Some(ae_lock), af_trigger: Some(af_trigger) }
}

/// The state once an exposure was measured: a better one is kept in mind, and the first of equals.
pub open spec fn weighed(t: Tuner, n: u32, ratio: u32) -> Tuner {
    if t.best_ratio is None || ratio > t.best_ratio->0 {
        Tuner { best_ev: candidate(n), best_ratio: Some(ratio), ..t }
    } else {
        t
    }
}

/// Whether a lock is kept: there is too little to judge it by, or it is good, or it was tried often
/// enough.
pub open spec fn keeps_lock(t: Tuner, attempts: u32, ratio: u32) -> bool {
    attempts < MIN_ATTEMPTS || ratio >= MIN_RATIO || t.tries >= MAX_TRIES
}

/// The step that follows when a measurement is in.
pub open spec fn measured_step(t: Tuner, attempts: u32, ratio: u32) -> TuneStep {
    match t.phase {
        TunePhase::Measuring(n) => {
            let w = weighed(t, n, ratio);
            if n + 1 < CANDIDATES {
                let next = (n + 1) as u32;
                goes(w, TunePhase::Exposing(next), set_ev(candidate(next)))
            } else {
                goes(w, TunePhase::Keeping, set_ev(w.best_ev))
            }
        },
        _ => if keeps_lock(t, attempts, ratio) {
            TuneStep { note: Some(TuneNote::Locked { ratio, tries: t.tries }), ..ends(t) }
        } else {
            let again = Tuner { tries: (t.tries + 1) as u32, ..t };
            TuneStep {
                note: Some(TuneNote::Refocusing { ratio, tries: again.tries }),
                ..goes(again, TunePhase::Releasing, set_lock(0, 2))
            }
        },
    }
}

/// The step that follows when an action without a measurement is done.
pub open spec fn went_step(t: Tuner) -> TuneStep {
    match t.phase {
        TunePhase::Settling => goes(t, TunePhase::Exposing(0), set_ev(candidate(0))),
        TunePhase::Exposing(n) => goes(
            t,
            TunePhase::Measuring(n),
            TuneAction::Measure { settle_ms: SWEEP_SETTLE_MS, window_ms: SWEEP_WINDOW_MS },
        ),
        TunePhase::Keeping => TuneStep {
            note: Some(TuneNote::Tuned { ev: t.best_ev, ratio: t.best_ratio->0 }),
            ..locks(t)
        },
        TunePhase::Converging => goes(t, TunePhase::Locking, set_lock(1, 1)),
        TunePhase::Locking => goes(
            t,
            TunePhase::Judging,
            TuneAction::Measure { settle_ms: 0, window_ms: EVAL_MS },
        ),
        TunePhase::Releasing => goes(
            t,
            TunePhase::Converging,
            TuneAction::Sleep(converge_ms(t.ev_auto)),
        ),
        _ => ends(t),
    }
}

/// The step that follows an event. A camera that is gone ends the tuning wherever it stands.
pub open spec fn tune_step(t: Tuner, event: TuneEvent) -> TuneStep {
    match event {
        TuneEvent::Gone => ends(t),
        TuneEvent::Went => went_step(t),
        TuneEvent::Measured { attempts, ratio } => measured_step(t, attempts, ratio),
    }
}

/// The first step of the tuning.
pub open spec fn first_step(lock: bool, ev_auto: bool) -> TuneStep {
    let t = Tuner {
        lock,
        ev_auto,
        phase: TunePhase::Done,
        best_ev: FIRST_EV,
        best_ratio: None,
        tries: 0,
    };
    if ev_auto {
        goes(t, TunePhase::Settling, TuneAction::Sleep(SETTLE_MS))
    } else {
        locks(t)
    }
}

/// Whether an event answers what a phase waits for.
pub open spec fn answers(phase: TunePhase, event: TuneEvent) -> bool {
    match event {
        TuneEvent::Gone => true,
        TuneEvent::Went => !(phase is Measuring) && !(phase is Judging),
        TuneEvent::Measured { .. } => phase is Measuring || phase is Judging,
    }
}

impl Tuner {
    /// The tuning keeps to its candidates and its tries, and knows a best exposure by the time that
    /// it keeps one.
    pub open spec fn wf(&self) -> bool {
        &&& self.tries <= MAX_TRIES
        &&& self.phase matches TunePhase::Exposing(n) ==> n < CANDIDATES
        &&& self.phase matches TunePhase::Measuring(n) ==> n < CANDIDATES
        &&& self.phase is Keeping ==> self.best_ratio is Some
    }

    /// Begins the tuning. Returns its state, and what is to be done first.
    pub fn begin(lock: bool, ev_auto: bool) -> (r: (Self, TuneAction))
        ensures
            r.0 == first_step(lock, ev_auto).tuner,
            r.1 == first_step(lock, ev_auto).action,
            first_step(lock, ev_auto).note is None,
            r.0.wf(),
    {
        let mut t: Tuner = Tuner {
            lock,
            ev_auto,
            phase: TunePhase::Done,
            best_ev: FIRST_EV,
            best_ratio: None,
            tries: 0,
        };
        if ev_auto {
            t.phase = TunePhase::Settling;
            return (t, TuneAction::Sleep(SETTLE_MS));
        }
        let action: TuneAction = t.begin_lock();
        (t, action)
    }

    /// Begins with the lock, where one is asked for.
    fn begin_lock(&mut self) -> (action: TuneAction)
        ensures
            *final(self) == locks(*old(self)).tuner,
            action == locks(*old(self)).action,
    {
        if !self.lock {
            self.phase = TunePhase::Done;
            return TuneAction::Finish;
        }
        self.phase = TunePhase::Converging;
        TuneAction::Sleep(
            if self.ev_auto {
                CONVERGE_TUNED_MS
            } else {
                CONVERGE_MS
            },
        )
    }

    /// Takes what came of the last action. Returns what is to be reported, and what is to be done
    /// next.
    pub fn next(&mut self, event: TuneEvent) -> (r: (Option<TuneNote>, TuneAction))
        requires
            old(self).wf(),
            answers(old(self).phase, event),
        ensures
            *final(self) == tune_step(*old(self), event).tuner,
            r.0 == tune_step(*old(self), event).note,
            r.1 == tune_step(*old(self), event).action,
            final(self).wf(),
    {
        match event {
            TuneEvent::Gone => {
                self.phase = TunePhase::Done;
                (None, TuneAction::Finish)
            },
            TuneEvent::Went => self.went(),
            TuneEvent::Measured { attempts, ratio } => self.measured(attempts, ratio),
        }
    }

    /// Takes that an action without a measurement was done.
    fn went(&mut self) -> (r: (Option<TuneNote>, TuneAction))
        requires
            old(self).wf(),
            answers(old(self).phase, TuneEvent::Went),
        ensures
            *final(self) == went_step(*old(self)).tuner,
            r.0 == went_step(*old(self)).note,
            r.1 == went_step(*old(self)).action,
            final(self).wf(),
    {
        match self.phase {
            TunePhase::Settling => {
                self.phase = TunePhase::Exposing(0);
                (None, TuneAction::Apply { ev: Some(-2), ae_lock: None, af_trigger: None })
            },
            TunePhase::Exposing(n) => {
                self.phase = TunePhase::Measuring(n);
                (None, TuneAction::Measure { settle_ms: SWEEP_SETTLE_MS, window_ms: SWEEP_WINDOW_MS })
            },
            TunePhase::Keeping => {
                let note: Option<TuneNote> = match self.best_ratio {
                    Some(ratio) => Some(TuneNote::Tuned { ev: self.best_ev, ratio }),
                    None => None,
                };
                (note, self.begin_lock())
            },
            TunePhase::Converging => {
                self.phase = TunePhase::Locking;
                (None, TuneAction::Apply { ev: None, ae_lock: Some(1), af_trigger: Some(1) })
            },
            TunePhase::Locking => {
                self.phase = TunePhase::Judging;
                (None, TuneAction::Measure { settle_ms: 0, window_ms: EVAL_MS })
            },
            TunePhase::Releasing => {
                self.phase = TunePhase::Converging;
                let ms: u64 = if self.ev_auto {
                    CONVERGE_TUNED_MS
                } else {
                    CONVERGE_MS
                };
                (None, TuneAction::Sleep(ms))
            },
            _ => {
                self.phase = TunePhase::Done;
                (None, TuneAction::Finish)
            },
        }
    }

    /// Takes a measurement.
    fn measured(&mut self, attempts: u32, ratio: u32) -> (r: (Option<TuneNote>, TuneAction))
        requires
            old(self).wf(),
            old(self).phase is Measuring || old(self).phase is Judging,
        ensures
            *final(self) == measured_step(*old(self), attempts, ratio).tuner,
            r.0 == measured_step(*old(self), attempts, ratio).note,
            r.1 == measured_step(*old(self), attempts, ratio).action,
            final(self).wf(),
    {
        match self.phase {
            TunePhase::Measuring(n) => {
                let better: bool = match self.best_ratio {
                    Some(best) => ratio > best,
                    None => true,
                };
                if better {
                    self.best_ratio = Some(ratio);
                    self.best_ev = -2 - n as i32;
                }
                let ev: i32 = if n + 1 < CANDIDATES {
                    self.phase = TunePhase::Exposing(n + 1);
                    -3 - n as i32
                } else {
                    self.phase = TunePhase::Keeping;
                    self.best_ev
                };
                (None, TuneAction::Apply { ev: Some(ev), ae_lock: None, af_trigger: None })
            },
            _ => {
                if attempts < MIN_ATTEMPTS || ratio >= MIN_RATIO || self.tries >= MAX_TRIES {
                    self.phase = TunePhase::Done;
                    return (
                        Some(TuneNote::Locked { ratio, tries: self.tries }),
                        TuneAction::Finish,
                    );
                }
                self.tries = self.tries + 1;
                self.phase = TunePhase::Releasing;
                (
                    Some(TuneNote::Refocusing { ratio, tries: self.tries }),
                    TuneAction::Apply { ev: None, ae_lock: Some(0), af_trigger: Some(2) },
                )
            },
        }
    }
}

/// How far a counter went from `before` to `now`. The counter may have begun anew in between.
pub fn counted_since(before: u32, now: u32) -> (n: u32)
    ensures
        n == if now >= before {
            now - before
        } else {
            now - before + 0x1_0000_0000
        },
{
    now.wrapping_sub(before)
}

/// A number of compensation steps, held to the range of the device. The upper end counts where the
/// range is turned round.
pub open spec fn clamped(units: int, lo: int, hi: int) -> int {
    if units > hi || lo > hi {
        hi
    } else if units < lo {
        lo
    } else {
        units
    }
}

/// Holds a number of compensation steps to the range of the device.
pub fn clamp_units(units: i32, range: [i32; 2]) -> (r: i32)
    ensures
        r == clamped(units as int, range@[0] as int, range@[1] as int),
{
    let low: i32 = if units < range[0] {
        range[0]
    } else {
        units
    };
    if low > range[1] {
        range[1]
    } else {
        low
    }
}

/// The range of compensation steps that a device reports, or a wide one where it does not.
pub fn compensation_range(reported: &Vec<i32>) -> (range: [i32; 2])
    ensures
        range@ == if reported@.len() >= 2 {
            seq![reported@[0], reported@[1]]
        } else {
            seq![-24i32, 24i32]
        },
{
    if reported.len() >= 2 {
        let range: [i32; 2] = [reported[0], reported[1]];
        assert(range@ =~= seq![reported@[0], reported@[1]]);
        range
    } else {
        let range: [i32; 2] = [-24, 24];
        assert(range@ =~= seq![-24i32, 24i32]);
        range
    }
}

/// The step that follows once the exposures with the first numbers were set and measured: how many
/// frames were tried with each, and what share of them decoded.
pub open spec fn swept(lock: bool, measured: Seq<(u32, u32)>) -> TuneStep
    decreases measured.len(),
{
    if measured.len() == 0 {
        tune_step(first_step(lock, true).tuner, TuneEvent::Went)
    } else {
        let set = tune_step(swept(lock, measured.drop_last()).tuner, TuneEvent::Went);
        let (attempts, ratio) = measured.last();
        tune_step(set.tuner, TuneEvent::Measured { attempts, ratio })
    }
}

/// Whether the exposure with number `k` is the best of those that were measured: none is better, and
/// those before it are worse.
pub open spec fn is_best(measured: Seq<(u32, u32)>, k: int) -> bool {
    &&& 0 <= k < measured.len()
    &&& forall|j: int| 0 <= j < measured.len() ==> (#[trigger] measured[j]).1 <= measured[k].1
    &&& forall|j: int| 0 <= j < k ==> (#[trigger] measured[j]).1 < measured[k].1
}

/// The sweep tries every exposure in turn and then sets the best.
pub proof fn law_sweep_keeps_the_best(lock: bool, measured: Seq<(u32, u32)>)
    requires
        0 < measured.len() <= CANDIDATES,
    ensures
        exists|k: int| #[trigger]
            is_best(measured, k) && swept(lock, measured).tuner.best_ev == candidate(k as u32) && swept(
                lock,
                measured,
            ).tuner.best_ratio == Some(measured[k].1),
        measured.len() < CANDIDATES ==> swept(lock, measured).action == set_ev(
            candidate(measured.len() as u32),
        ) && swept(lock, measured).tuner.phase == TunePhase::Exposing(measured.len() as u32),
        measured.len() == CANDIDATES ==> swept(lock, measured).action == set_ev(
            swept(lock, measured).tuner.best_ev,
        ) && swept(lock, measured).tuner.phase == TunePhase::Keeping,
    decreases measured.len(),
{
    let before = measured.drop_last();
    let n = before.len() as int;
    let prior = swept(lock, before);
    reveal_with_fuel(swept, 2);
    if n > 0 {
        law_sweep_keeps_the_best(lock, before);
        let k = choose|k: int| #[trigger]
            is_best(before, k) && prior.tuner.best_ev == candidate(k as u32) && prior.tuner.best_ratio
                == Some(before[k].1);
        assert forall|j: int| 0 <= j < n implies measured[j] == before[j] by {}
        if measured.last().1 > before[k].1 {
            assert forall|j: int| 0 <= j < n implies (#[trigger] measured[j]).1 < measured[n].1 by {
                assert(before[j].1 <= before[k].1);
            }
            assert(is_best(measured, n));
        } else {
            assert forall|j: int| 0 <= j < measured.len() implies (#[trigger] measured[j]).1
                <= measured[k].1 by {
                if j < n {
                    assert(before[j].1 <= before[k].1);
                }
            }
            assert forall|j: int| 0 <= j < k implies (#[trigger] measured[j]).1 < measured[k].1 by {
                assert(before[j].1 < before[k].1);
            }
            assert(is_best(measured, k));
        }
    } else {
        assert(is_best(measured, 0));
    }
}

/// A poor lock is tried again twice at most: each new try is counted, nothing else changes the count,
/// and a try past the last is never begun.
pub proof fn law_refocus_is_bounded(t: Tuner, event: TuneEvent)
    requires
        t.wf(),
        answers(t.phase, event),
    ensures
        tune_step(t, event).tuner.wf(),
        tune_step(t, event).tuner.tries == t.tries + if tune_step(t, event).note matches Some(
            TuneNote::Refocusing { .. },
        ) {
            1int
        } else {
            0
        },
        tune_step(t, event).tuner.tries <= MAX_TRIES,
{
}

/// A camera that is gone is left alone: no further change is made to it, in whatever phase the tuning
/// was.
pub proof fn law_gone_is_final(t: Tuner, event: TuneEvent)
    requires
        answers(TunePhase::Done, event),
    ensures
        tune_step(t, TuneEvent::Gone).action == TuneAction::Finish,
        tune_step(t, TuneEvent::Gone).note is None,
        tune_step(tune_step(t, TuneEvent::Gone).tuner, event).action == TuneAction::Finish,
{
}

/// A lock is kept where fewer than twenty frames were tried, where the share that decoded is at least
/// 0.55, given as its bit pattern, or where it was tried again twice; and released only otherwise.
pub proof fn law_when_a_lock_is_kept(t: Tuner, attempts: u32, ratio: u32)
    requires
        t.phase is Judging,
        t.tries <= 2,
    ensures
        ({
            let step = tune_step(t, TuneEvent::Measured { attempts, ratio });
            if attempts < 20 || ratio >= 0x3f0c_cccd || t.tries == 2 {
                step.action == TuneAction::Finish && step.note == Some(
                    TuneNote::Locked { ratio, tries: t.tries },
                ) && step.tuner.phase is Done
            } else {
                step.action == (TuneAction::Apply {
                    ev: None,
                    ae_lock: Some(0),
                    af_trigger: Some(2),
                }) && step.note == Some(
                    TuneNote::Refocusing { ratio, tries: (t.tries + 1) as u32 },
                ) && step.tuner.tries == t.tries + 1 && step.tuner.phase is Releasing
            }
        }),
{
}

/// The four exposures that are tried lie one step below the meter's and half a step further down each
/// time, in half steps; a measurement is kept in mind exactly where it is better than all before.
pub proof fn law_exposures_go_down_by_half_steps(t: Tuner, n: u32, attempts: u32, ratio: u32)
    requires
        t.phase == TunePhase::Measuring(n),
        n < 4,
    ensures
        ({
            let step = tune_step(t, TuneEvent::Measured { attempts, ratio });
            let better = t.best_ratio is None || ratio > t.best_ratio->0;
            &&& better ==> step.tuner.best_ev == -2 - n && step.tuner.best_ratio == Some(ratio)
            &&& !better ==> step.tuner.best_ev == t.best_ev && step.tuner.best_ratio == t.best_ratio
            &&& n < 3 ==> step.tuner.phase == TunePhase::Exposing((n + 1) as u32) && step.action == (
            TuneAction::Apply { ev: Some((-3 - n) as i32), ae_lock: None, af_trigger: None })
            &&& n == 3 ==> step.tuner.phase == TunePhase::Keeping && step.action == (
            TuneAction::Apply { ev: Some(step.tuner.best_ev), ae_lock: None, af_trigger: None })
        }),
{
}

/// Steps that lie in the device's range stay as they are, and others go to the end of the range that is
/// nearer to them.
pub proof fn law_clamping_goes_to_the_nearer_end(units: int, lo: int, hi: int)
    ensures
        lo <= units <= hi ==> clamped(units, lo, hi) == units,
        units < lo <= hi ==> clamped(units, lo, hi) == lo,
        lo <= hi < units ==> clamped(units, lo, hi) == hi,
        lo > hi ==> clamped(units, lo, hi) == hi,
{
}

} // verus!
