//! What the player remembers of locations that it saw before.
use crate::content::Content;
use crate::objects::{Character, Portable, Terrain};
use vstd::prelude::*;

verus! {

#[derive(Debug, PartialEq, Eq, Structural)]
pub struct OldContent {
    pub terrain: Terrain,
    pub character: Option<Character>,
    /// The topmost portable item, if any.
    pub portables: Option<Portable>,
}

impl OldContent {
    pub fn new(content: &Content) -> (old: OldContent)
        ensures
            old.terrain == content.terrain,
            old.character == content.character,
            old.portables == (if content.portables@.len() > 0 {
                Some(content.portables@.last())
            } else {
                None
            }),
    {
        let portables = if content.portables.len() > 0 {
            Some(content.portables[content.portables.len() - 1])
        } else {
            None
        };
        OldContent { terrain: content.terrain, character: content.character, portables }
    }
}

} // verus!
