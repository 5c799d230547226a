//! Noises that NPCs may hear.
use crate::object::{behavior_of, Object};
use crate::point::Point;
use crate::tag::{Behavior, Tid, SPECTATOR_ID};
use vstd::prelude::*;

verus! {

/// Volume represents the percent chance that an NPC will wake up if it is on top of the
/// noise source. The probability goes down with distance so there is always a chance that
/// an NPC will wake up (inside the cutoff point anyway).
#[derive(Clone, Copy, Debug, PartialEq, Eq, Structural, PartialOrd, Ord)]
pub struct Sound {
    volume: i32,
}

impl Sound {
    pub closed spec fn spec_volume(&self) -> int {
        self.volume as int
    }

    /// Louder by the other sound's volume.
    pub fn plus(self, rhs: Sound) -> (r: Sound)
        requires
            i32::MIN <= self.spec_volume() + rhs.spec_volume() <= i32::MAX,
        ensures
            r.spec_volume() == self.spec_volume() + rhs.spec_volume(),
    {
        Sound { volume: self.volume + rhs.volume }
    }
}

/// Silence.
pub fn none() -> (s: Sound)
    ensures
        s.spec_volume() == 0,
{
    Sound { volume: 0 }
}

/// Something like drinking a potion.
pub fn very_quiet() -> (s: Sound)
    ensures
        s.spec_volume() == 20,
{
    Sound { volume: 20 }
}

/// Something like the base movement noise.
pub fn quiet() -> (s: Sound)
    ensures
        s.spec_volume() == 150,
{
    Sound { volume: 150 }
}

/// Something like a yell.
pub fn loud() -> (s: Sound)
    ensures
        s.spec_volume() == 500,
{
    Sound { volume: 500 }
}

/// Whether an NPC that heard a noise goes to look: spectators never do, nor NPCs already
/// attacking or moving somewhere; sleeping and wandering NPCs do.
pub open spec fn responds(obj: Object) -> bool {
    !obj.spec_has(SPECTATOR_ID) && match behavior_of(obj.spec_tags()) {
        Some(Behavior::Sleeping) => true,
        Some(Behavior::Wandering(_)) => true,
        _ => false,
    }
}

/// Idle NPCs go to look at a noise and busy ones don't: an NPC that is not a spectator
/// responds when it is asleep or wandering, and never when it is attacking, already
/// moving somewhere, or has no behavior; a spectator never responds.
pub proof fn law_idle_npcs_respond(obj: Object)
    ensures
        obj.spec_has(SPECTATOR_ID) ==> !responds(obj),
        !obj.spec_has(SPECTATOR_ID) && behavior_of(obj.spec_tags()) == Some(Behavior::Sleeping)
            ==> responds(obj),
        !obj.spec_has(SPECTATOR_ID) && (behavior_of(obj.spec_tags()) matches Some(
            Behavior::Wandering(_),
        )) ==> responds(obj),
        (behavior_of(obj.spec_tags()) matches Some(Behavior::Attacking(_, _))) ==> !responds(obj),
        (behavior_of(obj.spec_tags()) matches Some(Behavior::MovingTo(_))) ==> !responds(obj),
        behavior_of(obj.spec_tags()) is None ==> !responds(obj),
{
}

pub fn responded_to_noise(obj: &Object, _origin: &Point) -> (r: bool)
    ensures
        r == responds(*obj),
        obj.spec_has(SPECTATOR_ID) ==> !r,
        !obj.spec_has(SPECTATOR_ID) && (behavior_of(obj.spec_tags()) matches Some(
            Behavior::Wandering(_),
        )) ==> r,
        !obj.spec_has(SPECTATOR_ID) && behavior_of(obj.spec_tags()) == Some(Behavior::Sleeping)
            ==> r,
        !(behavior_of(obj.spec_tags()) matches Some(Behavior::Sleeping))
            && !(behavior_of(obj.spec_tags()) matches Some(Behavior::Wandering(_))) ==> !r,
{
    if obj.has(Tid(SPECTATOR_ID)) {
        return false;
    }
    match obj.behavior_value() {
        Some(Behavior::Attacking(_, _)) => false,
        Some(Behavior::MovingTo(_)) => false,
        Some(Behavior::Sleeping) => true,
        Some(Behavior::Wandering(_)) => true,
        None => false,
    }
}

} // verus!
