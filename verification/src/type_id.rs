//! The value types that go into the store: each has a numeric id that is unique among
//! them, and an encoding as bytes that reads back as the same value.
use crate::codec::{
    decode_pair, decode_u32, encode_pair, encode_u32, postcard_pair_bytes, postcard_pair_read,
    postcard_u32_bytes, postcard_u32_read,
};
use crate::oid::Oid;
use crate::point::Point;
use crate::shared::{Character, Species, Terrain};
use vstd::prelude::*;

verus! {

/// Every type used as a value in the store gives a unique numeric id for that type.
pub trait TypeId<T> {
    const ID: u16;
}

impl<T> TypeId<T> for Character {
    const ID: u16 = 1;
}

impl<T> TypeId<T> for Point {
    const ID: u16 = 3;
}

impl<T> TypeId<T> for Species {
    const ID: u16 = 4;
}

impl<T> TypeId<T> for Terrain {
    const ID: u16 = 5;
}

/// A value that the store can hold: it is written as bytes and read back from them.
pub trait StoreValue: Sized + TypeId<Self> {
    /// The type's id.
    spec fn spec_id() -> u16;

    fn type_id() -> (id: u16)
        ensures
            id == Self::spec_id(),
    ;

    /// The bytes the value is stored as.
    spec fn encoding(&self) -> Seq<u8>;

    /// The value that the bytes hold, if they hold one.
    spec fn decoding(bytes: Seq<u8>) -> Option<Self>;

    /// The bytes, which read back as the value.
    fn to_bytes(&self) -> (bytes: Vec<u8>)
        ensures
            bytes@ == self.encoding(),
            Self::decoding(bytes@) == Some(*self),
    ;

    fn from_bytes(bytes: &[u8]) -> (r: Option<Self>)
        ensures
            r == Self::decoding(bytes@),
    ;
}

/// Position of the terrain among the enum's variants, as serde numbers them.
pub open spec fn terrain_index(t: Terrain) -> u32 {
    match t {
        Terrain::DeepWater => 0,
        Terrain::Dirt => 1,
        Terrain::RockWall => 2,
        Terrain::ShallowWater => 3,
    }
}

pub open spec fn terrain_at(i: u32) -> Option<Terrain> {
    if i == 0 {
        Some(Terrain::DeepWater)
    } else if i == 1 {
        Some(Terrain::Dirt)
    } else if i == 2 {
        Some(Terrain::RockWall)
    } else if i == 3 {
        Some(Terrain::ShallowWater)
    } else {
        None
    }
}

impl StoreValue for Terrain {
    open spec fn spec_id() -> u16 {
        5
    }

    fn type_id() -> (id: u16) {
        <Terrain as TypeId<Terrain>>::ID
    }

    open spec fn encoding(&self) -> Seq<u8> {
        postcard_u32_bytes(terrain_index(*self))
    }

    open spec fn decoding(bytes: Seq<u8>) -> Option<Terrain> {
        match postcard_u32_read(bytes) {
            Some(i) => terrain_at(i),
            None => None,
        }
    }

    fn to_bytes(&self) -> (bytes: Vec<u8>) {
        let index: u32 = match self {
            Terrain::DeepWater => 0,
            Terrain::Dirt => 1,
            Terrain::RockWall => 2,
            Terrain::ShallowWater => 3,
        };
        encode_u32(index)
    }

    fn from_bytes(bytes: &[u8]) -> (r: Option<Terrain>) {
        match decode_u32(bytes) {
            Some(0) => Some(Terrain::DeepWater),
            Some(1) => Some(Terrain::Dirt),
            Some(2) => Some(Terrain::RockWall),
            Some(3) => Some(Terrain::ShallowWater),
            _ => None,
        }
    }
}

/// Position of the species among the enum's variants, as serde numbers them.
pub open spec fn species_index(s: Species) -> u32 {
    match s {
        Species::Ay => 0,
        Species::Bhederin => 1,
        Species::Human => 2,
    }
}

pub open spec fn species_at(i: u32) -> Option<Species> {
    if i == 0 {
        Some(Species::Ay)
    } else if i == 1 {
        Some(Species::Bhederin)
    } else if i == 2 {
        Some(Species::Human)
    } else {
        None
    }
}

impl StoreValue for Species {
    open spec fn spec_id() -> u16 {
        4
    }

    fn type_id() -> (id: u16) {
        <Species as TypeId<Species>>::ID
    }

    open spec fn encoding(&self) -> Seq<u8> {
        postcard_u32_bytes(species_index(*self))
    }

    open spec fn decoding(bytes: Seq<u8>) -> Option<Species> {
        match postcard_u32_read(bytes) {
            Some(i) => species_at(i),
            None => None,
        }
    }

    fn to_bytes(&self) -> (bytes: Vec<u8>) {
        let index: u32 = match self {
            Species::Ay => 0,
            Species::Bhederin => 1,
            Species::Human => 2,
        };
        encode_u32(index)
    }

    fn from_bytes(bytes: &[u8]) -> (r: Option<Species>) {
        match decode_u32(bytes) {
            Some(0) => Some(Species::Ay),
            Some(1) => Some(Species::Bhederin),
            Some(2) => Some(Species::Human),
            _ => None,
        }
    }
}

/// A character is stored as the id it refers to (the layout of a one-field struct).
impl StoreValue for Character {
    open spec fn spec_id() -> u16 {
        1
    }

    fn type_id() -> (id: u16) {
        <Character as TypeId<Character>>::ID
    }

    open spec fn encoding(&self) -> Seq<u8> {
        postcard_u32_bytes(self.oid.value)
    }

    open spec fn decoding(bytes: Seq<u8>) -> Option<Character> {
        match postcard_u32_read(bytes) {
            Some(v) => Some(Character { oid: Oid { value: v } }),
            None => None,
        }
    }

    fn to_bytes(&self) -> (bytes: Vec<u8>) {
        encode_u32(self.oid.value)
    }

    fn from_bytes(bytes: &[u8]) -> (r: Option<Character>) {
        match decode_u32(bytes) {
            Some(v) => Some(Character { oid: Oid::without_tag(v) }),
            None => None,
        }
    }
}

/// A point is stored as its two coordinates, in the order of the struct's fields.
impl StoreValue for Point {
    open spec fn spec_id() -> u16 {
        3
    }

    fn type_id() -> (id: u16) {
        <Point as TypeId<Point>>::ID
    }

    open spec fn encoding(&self) -> Seq<u8> {
        postcard_pair_bytes(self.x, self.y)
    }

    open spec fn decoding(bytes: Seq<u8>) -> Option<Point> {
        match postcard_pair_read(bytes) {
            Some((x, y)) => Some(Point { x, y }),
            None => None,
        }
    }

    fn to_bytes(&self) -> (bytes: Vec<u8>) {
        encode_pair(self.x, self.y)
    }

    fn from_bytes(bytes: &[u8]) -> (r: Option<Point>) {
        match decode_pair(bytes) {
            Some((x, y)) => Some(Point { x, y }),
            None => None,
        }
    }
}

} // verus!
