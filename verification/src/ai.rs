//! What NPCs and other scheduled objects do with their time.
use crate::time::Time;
use vstd::prelude::*;

verus! {

pub enum Acted {
    /// An object did something that took time.
    Acted(Time),
    /// An object elected to do nothing (either it doesn't have enough time to do anything
    /// or it decided to wait to do something better when it has more time).
    DidntAct,
    /// The object de-scheduled itself.
    Removed,
}

} // verus!
