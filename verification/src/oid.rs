use vstd::prelude::*;

verus! {

/// Used to uniquely identify objects in the store. Objects are bundles of values, often
/// enums (e.g. species and terrain) but also struct values (e.g. a point for a location on
/// the map).
#[derive(Clone, Copy, Debug, PartialEq, Eq, Structural, Hash)]
pub struct Oid {
    pub value: u32,
}

impl Oid {
    /// The tag is only a label for logging; the identity is the value.
    pub fn new(_tag: &str, value: u32) -> (oid: Oid)
        ensures
            oid.value == value,
    {
        Oid { value }
    }

    pub fn without_tag(value: u32) -> (oid: Oid)
        ensures
            oid.value == value,
    {
        Oid { value }
    }
}

} // verus!
