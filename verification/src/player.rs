//! The functions that UIs use to respond to player input, and the state they act on.
use crate::char_to_loc::{char_locs, CharToLoc, Event};
use crate::message::{Message, Topic};
use crate::oid::Oid;
use crate::point::Point;
use vstd::prelude::*;

verus! {

#[derive(Clone, Copy, Debug, PartialEq, Eq, Structural)]
pub enum Direction {
    North,
    NorthEast,
    East,
    SouthEast,
    South,
    SouthWest,
    West,
    NorthWest,
}

/// The state the UI functions work on: the messages for the player and where each
/// character is (the player is object 0).
pub struct State {
    pub messages: Vec<Message>,
    pub char_to_loc: CharToLoc,
}

impl State {
    /// Applies an event to the state.
    pub fn process(&mut self, event: Event)
        requires
            match event {
                Event::AddChar(_, _) => true,
                Event::MoveChar(oid, loc) => char_locs(old(self).char_to_loc).contains_key(
                    oid.value,
                ) && char_locs(old(self).char_to_loc)[oid.value] != loc,
                Event::Create(_) => true,
            },
        ensures
            final(self).messages@ == old(self).messages@,
            char_locs(final(self).char_to_loc) == crate::char_to_loc::after_event(char_locs(old(self).char_to_loc), event),
            match event {
                Event::AddChar(oid, loc) => char_locs(final(self).char_to_loc) == char_locs(
                    old(self).char_to_loc,
                ).insert(oid.value, loc),
                Event::MoveChar(oid, loc) => char_locs(final(self).char_to_loc) == char_locs(
                    old(self).char_to_loc,
                ).insert(oid.value, loc),
                Event::Create(_) => char_locs(final(self).char_to_loc) == char_locs(old(self).char_to_loc),
            },
    {
        self.char_to_loc.process(event);
    }
}

/// The step, in x and y, of a move in the direction.
pub open spec fn direction_delta(dir: Direction) -> (int, int) {
    match dir {
        Direction::North => (0, -1),
        Direction::NorthEast => (1, -1),
        Direction::East => (1, 0),
        Direction::SouthEast => (1, 1),
        Direction::South => (0, 1),
        Direction::SouthWest => (-1, 1),
        Direction::West => (-1, 0),
        Direction::NorthWest => (-1, -1),
    }
}

/// The direction facing the other way.
pub open spec fn opposite(dir: Direction) -> Direction {
    match dir {
        Direction::North => Direction::South,
        Direction::NorthEast => Direction::SouthWest,
        Direction::East => Direction::West,
        Direction::SouthEast => Direction::NorthWest,
        Direction::South => Direction::North,
        Direction::SouthWest => Direction::NorthEast,
        Direction::West => Direction::East,
        Direction::NorthWest => Direction::SouthEast,
    }
}

/// The direction a quarter turn clockwise.
pub open spec fn clockwise(dir: Direction) -> Direction {
    match dir {
        Direction::North => Direction::East,
        Direction::NorthEast => Direction::SouthEast,
        Direction::East => Direction::South,
        Direction::SouthEast => Direction::SouthWest,
        Direction::South => Direction::West,
        Direction::SouthWest => Direction::NorthWest,
        Direction::West => Direction::North,
        Direction::NorthWest => Direction::NorthEast,
    }
}

/// Steps follow the compass on a map whose y grows southward: north is one step toward
/// smaller y; every step moves to one of the eight neighbouring cells; opposite
/// directions step opposite ways; a quarter turn clockwise turns the step (x, y) into
/// (-y, x); and each diagonal is the sum of its two neighbouring compass points.
pub proof fn law_compass_steps(dir: Direction)
    ensures
        direction_delta(Direction::North) == (0int, -1int),
        -1 <= direction_delta(dir).0 <= 1 && -1 <= direction_delta(dir).1 <= 1,
        direction_delta(dir) != (0int, 0int),
        direction_delta(opposite(dir)) == (-direction_delta(dir).0, -direction_delta(dir).1),
        direction_delta(clockwise(dir)) == (-direction_delta(dir).1, direction_delta(dir).0),
        direction_delta(Direction::NorthEast) == (direction_delta(Direction::North).0
            + direction_delta(Direction::East).0, direction_delta(Direction::North).1
            + direction_delta(Direction::East).1),
        direction_delta(Direction::SouthWest) == (direction_delta(Direction::South).0
            + direction_delta(Direction::West).0, direction_delta(Direction::South).1
            + direction_delta(Direction::West).1),
{
}

/// The player's location.
pub open spec fn player_at(state: &State) -> Point {
    char_locs(state.char_to_loc)[0]
}

/// Most often this will move the player to a new location, but it's also used to attack
/// NPCs, and to interact with objects like doors. The move is made when both the new x
/// and the player's y plus the step in x are not negative; otherwise the player is told
/// that it can't move there.
pub fn bump(state: &mut State, dir: Direction)
    requires
        char_locs(old(state).char_to_loc).contains_key(0),
        i32::MIN < player_at(old(state)).x < i32::MAX,
        i32::MIN < player_at(old(state)).y < i32::MAX,
    ensures
        ({
            let loc = player_at(old(state));
            let (dx, dy) = direction_delta(dir);
            if loc.x + dx >= 0 && loc.y + dx >= 0 {
                &&& char_locs(final(state).char_to_loc) == char_locs(old(state).char_to_loc).insert(
                    0,
                    Point { x: (loc.x + dx) as i32, y: (loc.y + dy) as i32 },
                )
                &&& final(state).messages@ == old(state).messages@
            } else {
                &&& char_locs(final(state).char_to_loc) == char_locs(old(state).char_to_loc)
                &&& final(state).messages@.len() == old(state).messages@.len() + 1
                &&& final(state).messages@.drop_last() == old(state).messages@
                &&& final(state).messages@.last().topic == Topic::Failed
                &&& final(state).messages@.last().text@ == "Can't move there"@
            }
        }),
{
    let delta = match dir {
        Direction::North => Point::new(0, -1),
        Direction::NorthEast => Point::new(1, -1),
        Direction::East => Point::new(1, 0),
        Direction::SouthEast => Point::new(1, 1),
        Direction::South => Point::new(0, 1),
        Direction::SouthWest => Point::new(-1, 1),
        Direction::West => Point::new(-1, 0),
        Direction::NorthWest => Point::new(-1, -1),
    };
    let loc = loc(state);
    if loc.x + delta.x >= 0 && loc.y + delta.x >= 0 {
        state.process(Event::MoveChar(Oid::without_tag(0), Point::new(loc.x + delta.x, loc.y + delta.y)));
    } else {
        state.messages.push(Message::new(Topic::Failed, "Can't move there"));
    }
}

/// The player's location.
pub fn loc(state: &State) -> (p: Point)
    requires
        char_locs(state.char_to_loc).contains_key(0),
    ensures
        p == player_at(state),
{
    state.char_to_loc.lookup(Oid::without_tag(0))
}

} // verus!
