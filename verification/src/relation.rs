//! Objects described by relations: each object id has a set of relations, at most one
//! of each relation tag.
use crate::point::Point;
use vstd::prelude::*;

verus! {

/// Identifies most objects in the store via [`ObjectId3`].
#[derive(Clone, Copy, Debug, PartialEq, Eq, Structural, Hash)]
pub struct Counter3 {
    /// Unique identifier for an `ObjectId3::Obj`.
    pub value: u32,
}

/// Identifies a set of associated [`Relation3`]s.
#[derive(Clone, Copy, Debug, PartialEq, Eq, Structural, Hash)]
pub enum ObjectId3 {
    /// These will have Objects and Terrain3 relations.
    Cell(Point),
    /// Used when a Cell is not found. Acts like a normal cell except that it's an error to
    /// try and mutate it.
    DefaultCell,
    /// Relations associated with the game as a whole, e.g. Messages.
    Game,
    /// NPC, portable item, trap, etc.
    Obj(Counter3),
    /// There is always one and only one of these. It has an Objects relation for the
    /// player's inventory.
    Player,
}

#[derive(Clone, Copy, Debug, PartialEq, Eq, Structural)]
pub enum Character3 {
    Guard,
    Player,
}

#[derive(Clone, Copy, Debug, PartialEq, Eq, Structural)]
pub enum Terrain3 {
    ClosedDoor,
    DeepWater,
    Dirt,
    OpenDoor,
    Rubble,
    ShallowWater,
    Tree,
    Vitr,
    Wall,
}

#[derive(Clone, Copy, Debug, PartialEq, Eq, Structural)]
pub enum Portable {
    MightySword,
    WeakSword,
}

#[derive(Clone, Copy, Debug, PartialEq, Eq, Structural)]
pub enum MessageKind3 {
    /// Player is near death, special message when entering a new level, etc.
    Critical,
    /// Player took a critical hit, buff is wearing off, etc.
    Important,
    /// Relatively spammy messages, e.g. player was hit.
    Normal,
    /// Messages that are not normally shown.
    Debug,
}

#[derive(Debug)]
pub struct Message3 {
    pub kind: MessageKind3,
    pub text: String,
}

/// Identifies a particular relation for operations like finding it.
#[derive(Clone, Copy, Debug, PartialEq, Eq, Structural, Hash)]
pub enum RelationTag3 {
    Character3,
    Location,
    Messages,
    Objects,
    Portable,
    Terrain3,
}

/// A value associated with an [`ObjectId3`].
#[derive(Debug)]
pub enum Relation3 {
    /// Characters will have this.
    Character3(Character3),
    /// Used for characters and items.
    Location(Point),
    /// Messages to be shown to the player as the game is played.
    Messages(Vec<Message3>),
    /// Characters and items for a Cell. Also items in a character's inventory.
    Objects(Vec<ObjectId3>),
    /// Objects that can be picked up and placed in a characters inventory.
    Portable(Portable),
    /// A Cell will always have this.
    Terrain3(Terrain3),
}

impl Relation3 {
    /// The tag that identifies the relation's kind.
    pub fn tag(&self) -> (t: RelationTag3)
        ensures
            t == relation_tag(*self),
    {
        match self {
            Relation3::Character3(_) => RelationTag3::Character3,
            Relation3::Location(_) => RelationTag3::Location,
            Relation3::Messages(_) => RelationTag3::Messages,
            Relation3::Objects(_) => RelationTag3::Objects,
            Relation3::Portable(_) => RelationTag3::Portable,
            Relation3::Terrain3(_) => RelationTag3::Terrain3,
        }
    }
}

pub open spec fn relation_tag(r: Relation3) -> RelationTag3 {
    match r {
        Relation3::Character3(_) => RelationTag3::Character3,
        Relation3::Location(_) => RelationTag3::Location,
        Relation3::Messages(_) => RelationTag3::Messages,
        Relation3::Objects(_) => RelationTag3::Objects,
        Relation3::Portable(_) => RelationTag3::Portable,
        Relation3::Terrain3(_) => RelationTag3::Terrain3,
    }
}

} // verus!
