//! The watchdog over the workers: where decoding stands still while the camera goes on, the workers
//! are given up and new ones take their place.

use vstd::prelude::*;

verus! {

/// How long there is between two looks of the watchdog, in milliseconds.
pub const WATCHDOG_MS: u64 = 750;

/// How many stalled looks in a row make the watchdog act.
pub const STALL_LIMIT: u32 = 2;

/// How often the workers are replaced at most.
pub const MAX_RESPAWNS: u32 = 200;

/// What the watchdog does after a look.
#[derive(Clone, Copy, PartialEq, Eq, Structural)]
pub enum WatchdogAction {
    /// All is well, or not yet clear.
    Nothing,
    /// Retire the workers and spawn those of the generation with this number.
    Respawn(u32),
    /// The workers stall again and again: leave the loop.
    GiveUp,
}

/// What the watchdog remembers from one look to the next.
pub struct Watchdog {
    /// How many frames the workers had tried at the last look.
    pub attempts: u32,
    /// How many frames the camera had delivered at the last look.
    pub captures: u32,
    /// How many looks in a row found the workers stalled.
    pub stalls: u32,
    /// How often the workers were replaced.
    pub respawns: u32,
}

/// Whether a look finds the workers stalled: they tried nothing, though the camera delivered.
pub open spec fn stalled(dog: Watchdog, attempts: u32, captures: u32) -> bool {
    attempts == dog.attempts && captures != dog.captures
}

/// What the watchdog remembers after a look.
pub open spec fn looked(dog: Watchdog, attempts: u32, captures: u32) -> Watchdog {
    if !stalled(dog, attempts, captures) {
        Watchdog { attempts, captures, stalls: 0, respawns: dog.respawns }
    } else if dog.stalls + 1 < STALL_LIMIT {
        Watchdog { attempts, captures, stalls: (dog.stalls + 1) as u32, respawns: dog.respawns }
    } else {
        Watchdog { attempts, captures, stalls: 0, respawns: (dog.respawns + 1) as u32 }
    }
}

/// What the watchdog does after a look.
pub open spec fn action(dog: Watchdog, attempts: u32, captures: u32) -> WatchdogAction {
    if !stalled(dog, attempts, captures) || dog.stalls + 1 < STALL_LIMIT {
        WatchdogAction::Nothing
    } else if dog.respawns < MAX_RESPAWNS {
        WatchdogAction::Respawn((dog.respawns + 1) as u32)
    } else {
        WatchdogAction::GiveUp
    }
}

impl Watchdog {
    /// The watchdog has not acted yet as often as it may, nor let more stalls pass than it should.
    pub open spec fn wf(&self) -> bool {
        &&& self.stalls < STALL_LIMIT
        &&& self.respawns <= MAX_RESPAWNS
    }

    /// A watchdog that begins with the counters as they stand.
    pub fn new(attempts: u32, captures: u32) -> (dog: Self)
        ensures
            dog.wf(),
            dog == (Watchdog { attempts, captures, stalls: 0, respawns: 0 }),
    {
        Watchdog { attempts, captures, stalls: 0, respawns: 0 }
    }

    /// Looks at the counters. The watchdog is good for another look unless it gave up.
    pub fn look(&mut self, attempts: u32, captures: u32) -> (act: WatchdogAction)
        requires
            old(self).wf(),
        ensures
            *final(self) == looked(*old(self), attempts, captures),
            act == action(*old(self), attempts, captures),
            act != WatchdogAction::GiveUp ==> final(self).wf(),
    {
        let workers_stuck: bool = attempts == self.attempts;
        let camera_alive: bool = captures != self.captures;
        self.attempts = attempts;
        self.captures = captures;
        if !(workers_stuck && camera_alive) {
            self.stalls = 0;
            return WatchdogAction::Nothing;
        }
        self.stalls = self.stalls + 1;
        if self.stalls < STALL_LIMIT {
            return WatchdogAction::Nothing;
        }
        self.stalls = 0;
        self.respawns = self.respawns + 1;
        if self.respawns > MAX_RESPAWNS {
            return WatchdogAction::GiveUp;
        }
        WatchdogAction::Respawn(self.respawns)
    }
}

/// A look that finds the workers at it, or the camera still, is never acted on, and all stalls before
/// it are forgotten.
pub proof fn law_healthy_workers_are_left_alone(dog: Watchdog, attempts: u32, captures: u32)
    requires
        attempts != dog.attempts || captures == dog.captures,
    ensures
        action(dog, attempts, captures) == WatchdogAction::Nothing,
        looked(dog, attempts, captures).stalls == 0,
        looked(dog, attempts, captures).respawns == dog.respawns,
{
}

/// The workers are replaced only after two looks in a row that found them stalled.
pub proof fn law_respawn_needs_two_stalls(dog: Watchdog, first: (u32, u32), second: (u32, u32))
    requires
        dog.wf(),
        action(looked(dog, first.0, first.1), second.0, second.1) != WatchdogAction::Nothing,
    ensures
        stalled(dog, first.0, first.1),
        stalled(looked(dog, first.0, first.1), second.0, second.1),
        first.0 == dog.attempts && second.0 == dog.attempts,
{
}

/// The generations that are spawned in a run of looks, each at the counters as they stood. A watchdog
/// that gave up looks no more.
pub open spec fn generations(dog: Watchdog, looks: Seq<(u32, u32)>) -> Seq<u32>
    decreases looks.len(),
{
    if looks.len() == 0 {
        Seq::empty()
    } else {
        let (attempts, captures) = looks[0];
        let rest = generations(looked(dog, attempts, captures), looks.skip(1));
        match action(dog, attempts, captures) {
            WatchdogAction::Nothing => rest,
            WatchdogAction::Respawn(generation) => seq![generation] + rest,
            WatchdogAction::GiveUp => Seq::empty(),
        }
    }
}

/// Generations are numbered one after the other, so no worker of an old one is taken for one of a
/// new one; and there are no more of them than the limit.
pub proof fn law_generations_count_up(dog: Watchdog, looks: Seq<(u32, u32)>)
    requires
        dog.wf(),
    ensures
        dog.respawns + generations(dog, looks).len() <= MAX_RESPAWNS,
        forall|i: int|
            0 <= i < generations(dog, looks).len() ==> #[trigger] generations(dog, looks)[i]
                == dog.respawns + 1 + i,
    decreases looks.len(),
{
    if looks.len() > 0 {
        let (attempts, captures) = looks[0];
        if action(dog, attempts, captures) != WatchdogAction::GiveUp {
            law_generations_count_up(looked(dog, attempts, captures), looks.skip(1));
        }
    }
}

/// A first stall is remembered and not acted on; a second in a row replaces the workers by those of the
/// next generation, two hundred times at most, and then the watchdog gives up. Every look remembers the
/// counters as they stood.
pub proof fn law_second_stall_is_acted_on(dog: Watchdog, attempts: u32, captures: u32)
    requires
        dog.wf(),
    ensures
        looked(dog, attempts, captures).attempts == attempts,
        looked(dog, attempts, captures).captures == captures,
        attempts == dog.attempts && captures != dog.captures && dog.stalls == 0 ==> {
            &&& action(dog, attempts, captures) == WatchdogAction::Nothing
            &&& looked(dog, attempts, captures).stalls == 1
            &&& looked(dog, attempts, captures).respawns == dog.respawns
        },
        attempts == dog.attempts && captures != dog.captures && dog.stalls == 1 ==> {
            &&& looked(dog, attempts, captures).stalls == 0
            &&& looked(dog, attempts, captures).respawns == dog.respawns + 1
            &&& dog.respawns < 200 ==> action(dog, attempts, captures) == WatchdogAction::Respawn(
                (dog.respawns + 1) as u32,
            )
            &&& dog.respawns == 200 ==> action(dog, attempts, captures) == WatchdogAction::GiveUp
        },
        dog.stalls <= 1,
        dog.respawns <= 200,
{
}

} // verus!
