//! The functions that UIs use when rendering.
use crate::message::Message;
use crate::player::{self, player_at, State};
use crate::char_to_loc::char_locs;
use crate::point::Point;
use vstd::prelude::*;

verus! {

/// The most recent messages, at most `limit` of them, oldest first.
pub fn recent_messages(state: &State, limit: usize) -> (msgs: &[Message])
    ensures
        msgs@ == (if limit < state.messages@.len() {
            state.messages@.subrange(state.messages@.len() - limit, state.messages@.len() as int)
        } else {
            state.messages@
        }),
{
    let len = state.messages.len();
    let all = state.messages.as_slice();
    if limit < len {
        &all[len - limit..len]
    } else {
        let r = &all[0..len];
        assert(r@ =~= state.messages@);
        r
    }
}

pub fn player_loc(state: &State) -> (p: Point)
    requires
        char_locs(state.char_to_loc).contains_key(0),
    ensures
        p == player_at(state),
{
    player::loc(state)
}

/// The player's current and maximum hit points.
pub fn player_hps(_state: &State) -> (hps: (i32, i32))
    ensures
        hps == (100i32, 100i32),
{
    (100, 100)
}

} // verus!
