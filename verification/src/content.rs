//! What the player knows of a location, for rendering.
use crate::objects::{Character, Portable, Terrain};
use vstd::prelude::*;

verus! {

#[derive(Debug, PartialEq, Eq)]
pub struct Content {
    pub terrain: Terrain,
    pub character: Option<Character>,
    pub portables: Vec<Portable>,
}

#[derive(Debug, PartialEq, Eq)]
pub enum Tile {
    /// player can see this
    Visible(Content),
    /// player can't see this but has in the past, note that this may not reflect the
    /// current state
    Stale(Content),
    /// player has never seen this location (and it may not exist)
    NotVisible,
}

} // verus!
