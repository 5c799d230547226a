//! What digging into a wall does: each blow takes a share of the wall's greatest
//! durability, and the blow that would take the rest destroys it.
use crate::message::{Message, Topic};
use crate::tag::Durability;
use vstd::prelude::*;

verus! {

/// The durability one blow takes from a wall: its greatest durability divided by the
/// blow's strength, rounded toward zero.
pub open spec fn blow(max: int, strength: int) -> int {
    if max >= 0 { max / strength } else { -((-max) / strength) }
}

/// What a blow does to the wall.
pub struct DigOutcome {
    /// The wall's durability after the blow, or `None` when the blow destroyed it.
    pub durability: Option<Durability>,
    /// What the player is told.
    pub message: Message,
}

/// The outcome of digging with the given strength into a wall of the given durability. A
/// blow that takes less than what is left chips the wall: its current durability goes
/// down by the blow, which must leave it within an `i32`. Otherwise the wall is destroyed.
pub fn dig_outcome(durability: Durability, strength: i32) -> (r: DigOutcome)
    requires
        strength > 0,
        durability.current - blow(durability.max as int, strength as int) <= i32::MAX,
    ensures
        ({
            let taken = blow(durability.max as int, strength as int);
            if taken < durability.current {
                &&& r.durability == Some(Durability { current: (durability.current - taken) as i32, max: durability.max })
                &&& r.message.topic == Topic::Normal
                &&& r.message.text@ == "You chip away at the wall with your pick-axe."@
            } else {
                &&& r.durability is None
                &&& r.message.topic == Topic::Important
                &&& r.message.text@ == "You destroy the wall!"@
            }
        }),
{
    let taken: i32 = durability.max / strength;
    assert(taken == blow(durability.max as int, strength as int));
    if taken < durability.current {
        let message = Message::new(Topic::Normal, "You chip away at the wall with your pick-axe.");
        DigOutcome { durability: Some(Durability { current: durability.current - taken, max: durability.max }), message }
    } else {
        let message = Message::new(Topic::Important, "You destroy the wall!");
        DigOutcome { durability: None, message }
    }
}

} // verus!
