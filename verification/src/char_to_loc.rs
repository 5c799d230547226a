//! Where each character is, kept up to date from the events that add and move characters.
use crate::object::ObjectName;
use crate::oid::Oid;
use crate::point::Point;
use fnv::FnvHashMap;
use vstd::prelude::*;

verus! {

/// The events that the data views are built from.
#[derive(Clone, Copy, Debug, PartialEq, Eq, Structural)]
pub enum Event {
    /// A character appears at the location.
    AddChar(Oid, Point),
    /// A character moves to the location.
    MoveChar(Oid, Point),
    /// An object with the name is made.
    Create(ObjectName),
}

/// What an event does to the characters' locations: an added or moved character gets the
/// event's location.
pub open spec fn after_event(locs: Map<u32, Point>, event: Event) -> Map<u32, Point> {
    match event {
        Event::AddChar(oid, loc) => locs.insert(oid.value, loc),
        Event::MoveChar(oid, loc) => locs.insert(oid.value, loc),
        Event::Create(_) => locs,
    }
}

/// The characters' locations after the events, in order.
pub open spec fn after_events(locs: Map<u32, Point>, events: Seq<Event>) -> Map<u32, Point>
    decreases events.len(),
{
    if events.len() == 0 {
        locs
    } else {
        after_event(after_events(locs, events.drop_last()), events.last())
    }
}

/// The location that the last event adding or moving the player (object 0) carried, if
/// any did.
pub open spec fn last_player_loc(events: Seq<Event>) -> Option<Point>
    decreases events.len(),
{
    if events.len() == 0 {
        None
    } else {
        match events.last() {
            Event::AddChar(oid, loc) => if oid.value == 0 {
                Some(loc)
            } else {
                last_player_loc(events.drop_last())
            },
            Event::MoveChar(oid, loc) => if oid.value == 0 {
                Some(loc)
            } else {
                last_player_loc(events.drop_last())
            },
            Event::Create(_) => last_player_loc(events.drop_last()),
        }
    }
}

/// After a history of events, the player is where the last event that added or moved it
/// put it; with no such event, where it was before (if anywhere).
pub proof fn law_player_after_events(locs: Map<u32, Point>, events: Seq<Event>)
    ensures
        last_player_loc(events) matches Some(p) ==> after_events(locs, events).contains_key(0)
            && after_events(locs, events)[0] == p,
        last_player_loc(events) is None ==> (after_events(locs, events).contains_key(0) == locs.contains_key(0))
            && (locs.contains_key(0) ==> after_events(locs, events)[0] == locs[0]),
    decreases events.len(),
{
    if events.len() > 0 {
        law_player_after_events(locs, events.drop_last());
    }
}

/// The location of each character, in a hash map with the FNV hasher. The map is held
/// privately so that the wrappers below are the only access to it: vstd's `HashMap`
/// contracts hold only for hashers that it knows to be deterministic, and the FNV hasher
/// is not among them.
#[verifier::external_body]
pub struct CharToLoc {
    table: FnvHashMap<Oid, Point>,
}

/// What the table holds: the location of each character, by object id.
pub uninterp spec fn char_locs(t: CharToLoc) -> Map<u32, Point>;

impl CharToLoc {
    /// Calls `FnvHashMap::default`. Trusted: the table starts empty.
    #[verifier::external_body]
    pub fn new() -> (t: CharToLoc)
        ensures
            char_locs(t).is_empty(),
    {
        CharToLoc { table: FnvHashMap::default() }
    }

    /// Calls `HashMap::get`. Trusted: the character's location if it has one.
    #[verifier::external_body]
    fn get(&self, oid: Oid) -> (r: Option<Point>)
        ensures
            match r {
                Some(loc) => char_locs(*self).contains_key(oid.value) && loc == char_locs(
                    *self,
                )[oid.value],
                None => !char_locs(*self).contains_key(oid.value),
            },
    {
        self.table.get(&oid).copied()
    }

    /// Calls `HashMap::insert`. Trusted: the character now has the location.
    #[verifier::external_body]
    fn insert(&mut self, oid: Oid, loc: Point)
        ensures
            char_locs(*final(self)) == char_locs(*old(self)).insert(oid.value, loc),
    {
        self.table.insert(oid, loc);
    }

    /// Calls `HashMap::remove`. Trusted: the character has no location afterwards, and the
    /// one it had, if any, is returned.
    #[verifier::external_body]
    fn remove(&mut self, oid: Oid) -> (r: Option<Point>)
        ensures
            char_locs(*final(self)) == char_locs(*old(self)).remove(oid.value),
            match r {
                Some(loc) => char_locs(*old(self)).contains_key(oid.value) && loc == char_locs(
                    *old(self),
                )[oid.value],
                None => !char_locs(*old(self)).contains_key(oid.value),
            },
    {
        self.table.remove(&oid)
    }

    /// The location of a character that has one.
    pub fn lookup(&self, oid: Oid) -> (loc: Point)
        requires
            char_locs(*self).contains_key(oid.value),
        ensures
            loc == char_locs(*self)[oid.value],
    {
        self.get(oid).unwrap()
    }

    /// Applies the event: an added character gets its location, and a moved character,
    /// which must have had a location other than the new one, gets the new one.
    pub fn process(&mut self, event: Event)
        requires
            match event {
                Event::AddChar(_, _) => true,
                Event::MoveChar(oid, loc) => char_locs(*old(self)).contains_key(oid.value)
                    && char_locs(*old(self))[oid.value] != loc,
                Event::Create(_) => true,
            },
        ensures
            char_locs(*final(self)) == after_event(char_locs(*old(self)), event),
            match event {
                Event::AddChar(oid, loc) => char_locs(*final(self)) == char_locs(*old(self)).insert(
                    oid.value,
                    loc,
                ),
                Event::MoveChar(oid, loc) => char_locs(*final(self)) == char_locs(
                    *old(self),
                ).insert(oid.value, loc),
                Event::Create(_) => char_locs(*final(self)) == char_locs(*old(self)),
            },
    {
        match event {
            Event::AddChar(oid, loc) => {
                self.insert(oid, loc);
            },
            Event::MoveChar(oid, loc) => {
                let removed = self.remove(oid);
                assert(removed.unwrap() != loc);
                self.insert(oid, loc);
            },
            Event::Create(_) => {},
        }
    }
}

} // verus!
