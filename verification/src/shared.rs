//! Types exchanged between the game and its user interface.
use crate::oid::Oid;
use crate::point::Point;
use vstd::prelude::*;

verus! {

#[derive(Clone, Copy, Debug, PartialEq, Eq, Structural)]
pub enum MessageKind {
    /// Player tried to do something but failed, e.g. move into a wall.
    PlayerFailed,
}

#[derive(Debug)]
pub struct Message {
    pub kind: MessageKind,
    pub text: String,
}

/// Represents what the player wants to do next. Most of these will use up the player's
/// remaining time units, but some like (Examine) don't take any time.
#[derive(Clone, Copy, Debug, PartialEq, Eq, Structural)]
pub enum Command {
    /// Typically this will be a move to an adjacent cell but something like a charge can
    /// be used to move multiple cells in one go.
    Move(Point),
}

#[derive(Clone, Copy, Debug, PartialEq, Eq, Structural)]
pub enum Item {
    Axe,
    Sword,
}

#[derive(Clone, Copy, Debug, PartialEq, Eq, Structural)]
pub enum Species {
    Ay,
    Bhederin,
    Human,
}

/// A character standing in a cell: the id of the object that holds its species.
#[derive(Clone, Copy, Debug, PartialEq, Eq, Structural)]
pub struct Character {
    pub oid: Oid,
}

#[derive(Clone, Copy, Debug, PartialEq, Eq, Structural)]
pub enum Terrain {
    DeepWater,
    Dirt,
    RockWall,
    ShallowWater,
}

impl Default for Terrain {
    /// Unknown terrain is rock.
    fn default() -> (t: Terrain)
        ensures
            t == Terrain::RockWall,
    {
        Terrain::RockWall
    }
}

pub struct Tile {
    pub terrain: Terrain,
    pub items: Vec<Item>,
    pub character: Option<Species>,
}

pub struct SnapshotArgs {
    /// Include cells within radius of the player. Defaults to 5.
    pub radius: i32,
    /// Include the last N messages. Defaults to 4.
    pub num_messages: i32,
}

impl SnapshotArgs {
    pub fn new() -> (args: SnapshotArgs)
        ensures
            args.radius == 5,
            args.num_messages == 4,
    {
        SnapshotArgs { radius: 5, num_messages: 4 }
    }
}

#[verifier::external_type_specification]
#[verifier::external_body]
pub struct ExIoError(std::io::Error);

/// A front end that drives a game until the user quits.
pub trait UI {
    fn run(&mut self) -> Result<(), std::io::Error>;
}

} // verus!
