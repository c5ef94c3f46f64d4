//! Keeping the display awake while codes are shown.

use vstd::prelude::*;

verus! {

/// The request stays in force until it is changed.
pub const ES_CONTINUOUS: u32 = 0x8000_0000;

/// The system may not sleep.
pub const ES_SYSTEM_REQUIRED: u32 = 0x0000_0001;

/// The display may not go dark.
pub const ES_DISPLAY_REQUIRED: u32 = 0x0000_0002;

/// What is to be done about the display.
#[derive(Clone, Copy, PartialEq, Eq, Structural)]
pub enum AwakeAction {
    /// Nothing: it is as it should be.
    Nothing,
    /// Hold the request on a thread of its own: it lives as long as the thread.
    Hold,
    /// Let the thread end, and the request with it.
    LetGo,
}

/// Whether the request is held.
pub struct KeepAwake {
    pub active: bool,
}

/// What is to be done when the display is to be awake (`on`) or need not be.
pub open spec fn awake_action(active: bool, on: bool) -> AwakeAction {
    if on == active {
        AwakeAction::Nothing
    } else if on {
        AwakeAction::Hold
    } else {
        AwakeAction::LetGo
    }
}

impl KeepAwake {
    /// Nothing is held.
    pub fn new() -> (s: Self)
        ensures
            !s.active,
    {
        KeepAwake { active: false }
    }

    /// Says what is to be done. Asking twice for the same does nothing.
    pub fn set(&mut self, on: bool) -> (act: AwakeAction)
        ensures
            final(self).active == on,
            act == awake_action(old(self).active, on),
    {
        if on == self.active {
            return AwakeAction::Nothing;
        }
        self.active = on;
        if on {
            AwakeAction::Hold
        } else {
            AwakeAction::LetGo
        }
    }
}

/// The flags of the request that is made when the thread begins (`on`) and when it ends.
pub fn execution_state(on: bool) -> (flags: u32)
    ensures
        flags == if on {
            ES_CONTINUOUS | ES_DISPLAY_REQUIRED | ES_SYSTEM_REQUIRED
        } else {
            ES_CONTINUOUS
        },
{
    if on {
        ES_CONTINUOUS | ES_DISPLAY_REQUIRED | ES_SYSTEM_REQUIRED
    } else {
        ES_CONTINUOUS
    }
}

/// Whether the request is held once the display was asked for `ons`, one after the other.
pub open spec fn held_after(active: bool, ons: Seq<bool>) -> bool {
    if ons.len() == 0 {
        active
    } else {
        ons.last()
    }
}

/// What is done when the display is asked for `ons`, one after the other.
pub open spec fn deeds(active: bool, ons: Seq<bool>) -> Seq<AwakeAction>
    decreases ons.len(),
{
    if ons.len() == 0 {
        Seq::empty()
    } else {
        let before = deeds(active, ons.drop_last());
        let act = awake_action(held_after(active, ons.drop_last()), ons.last());
        if act == AwakeAction::Nothing {
            before
        } else {
            before.push(act)
        }
    }
}

/// However often the display is asked to be awake or not to be, holds and releases alternate,
/// beginning with the one that changes anything: the request is never held twice, and never let go
/// where it is not held.
pub proof fn law_holds_and_releases_alternate(active: bool, ons: Seq<bool>)
    ensures
        forall|i: int|
            0 <= i < deeds(active, ons).len() ==> #[trigger] deeds(active, ons)[i] == if (i % 2
                == 0) == active {
                AwakeAction::LetGo
            } else {
                AwakeAction::Hold
            },
        held_after(active, ons) == ((deeds(active, ons).len() % 2 == 0) == active),
    decreases ons.len(),
{
    if ons.len() > 0 {
        law_holds_and_releases_alternate(active, ons.drop_last());
    }
}

} // verus!
