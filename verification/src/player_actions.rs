//! What stops the player from walking onto a terrain.
use crate::objects::Terrain;
use vstd::prelude::*;

verus! {

/// Why the player cannot walk onto the terrain, if it cannot: a closed door has an empty
/// reason, since it is opened rather than walked onto.
pub open spec fn traverse_text(terrain: Terrain) -> Option<Seq<char>> {
    match terrain {
        Terrain::ClosedDoor => Some(""@),
        Terrain::DeepWater => Some("The water is too deep."@),
        Terrain::Dirt => None,
        Terrain::OpenDoor => None,
        Terrain::Rubble => None,
        Terrain::ShallowWater => None,
        Terrain::Tree => Some("The tree is too big."@),
        Terrain::Vitr => Some("Why would you want to do that?"@),
        Terrain::Wall => Some("You bump the wall."@),
    }
}

/// Why the player cannot walk onto the terrain, or `None` if it can.
pub fn player_can_traverse(terrain: Terrain) -> (r: Option<&'static str>)
    ensures
        r is Some <==> traverse_text(terrain) is Some,
        r matches Some(s) ==> s@ == traverse_text(terrain)->0,
{
    match terrain {
        Terrain::ClosedDoor => {
            proof {
                reveal_strlit("");
            }
            Some("")
        },
        Terrain::DeepWater => {
            proof {
                reveal_strlit("The water is too deep.");
            }
            Some("The water is too deep.")
        },
        Terrain::Dirt => None,
        Terrain::OpenDoor => None,
        Terrain::Rubble => None,
        Terrain::ShallowWater => None,
        Terrain::Tree => {
            proof {
                reveal_strlit("The tree is too big.");
            }
            Some("The tree is too big.")
        },
        Terrain::Vitr => {
            proof {
                reveal_strlit("Why would you want to do that?");
            }
            Some("Why would you want to do that?")
        },
        Terrain::Wall => {
            proof {
                reveal_strlit("You bump the wall.");
            }
            Some("You bump the wall.")
        },
    }
}

} // verus!
