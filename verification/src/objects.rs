//! The values that describe characters, terrain, items and messages in the store.
use crate::oid::Oid;
use vstd::prelude::*;

verus! {

#[derive(Clone, Copy, Debug, PartialEq, Eq, Structural)]
pub enum Character {
    Guard,
    Player,
}

impl Default for Character {
    fn default() -> (c: Character)
        ensures
            c == Character::Guard,
    {
        Character::Guard
    }
}

#[derive(Clone, Copy, Debug, PartialEq, Eq, Structural)]
pub enum Terrain {
    /// Will have Durability (and usually Material) if the door can be broken down.
    /// If it has a Binding tag then it can only be opened by characters that
    /// have a matching Binding object in their inventory (i.e. a key).
    ClosedDoor,
    DeepWater,
    Dirt,
    OpenDoor,
    /// Will have a Material tag.
    Rubble,
    ShallowWater,
    Tree,
    Vitr,
    /// Will normally have Durability and Material tags. At zero durability changes to Rubble.
    Wall,
}

impl Default for Terrain {
    fn default() -> (t: Terrain)
        ensures
            t == Terrain::Wall,
    {
        Terrain::Wall
    }
}

/// Refers to an object in a character's inventory.
#[derive(Clone, Copy, Debug, PartialEq, Eq, Structural)]
pub struct InvItem {
    pub oid: Oid,
}

#[derive(Clone, Copy, Debug, PartialEq, Eq, Structural)]
pub enum Portable {
    MightySword,
    WeakSword,
}

impl Default for Portable {
    fn default() -> (p: Portable)
        ensures
            p == Portable::MightySword,
    {
        Portable::MightySword
    }
}

#[derive(Clone, Copy, Debug, PartialEq, Eq, Structural)]
pub enum MessageKind {
    /// Operation failed.
    Error,
    /// Player is near death, special message when entering a new level, etc.
    Critical,
    /// Player took a critical hit, buff is wearing off, etc.
    Important,
    /// Relatively spammy messages, e.g. player was hit.
    Normal,
    /// Messages that are not normally shown.
    Debug,
}

impl Default for MessageKind {
    fn default() -> (k: MessageKind)
        ensures
            k == MessageKind::Normal,
    {
        MessageKind::Normal
    }
}

#[derive(Debug)]
pub struct Message {
    pub kind: MessageKind,
    pub text: String,
}

impl Default for Message {
    fn default() -> (m: Message)
        ensures
            m.kind == MessageKind::Normal,
            m.text@.len() == 0,
    {
        Message { kind: MessageKind::Normal, text: String::new() }
    }
}

} // verus!
