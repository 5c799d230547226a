//! Object ids gathered by the whole-level checks: a set of ids, and a map from ids to
//! locations.
use crate::oid::Oid;
use crate::point::Point;
use fnv::{FnvHashMap, FnvHashSet};
use vstd::prelude::*;

verus! {

/// Object ids in a hash set with the FNV hasher. The set is held privately so that the
/// wrappers below are the only access to it: vstd's `HashSet` contracts hold only for
/// hashers that it knows to be deterministic, and the FNV hasher is not among them.
#[verifier::external_body]
pub struct IdSet {
    set: FnvHashSet<Oid>,
}

/// What the set holds.
pub uninterp spec fn ids_of(s: IdSet) -> Set<Oid>;

impl IdSet {
    /// Calls `FnvHashSet::default`. Trusted: the set starts empty.
    #[verifier::external_body]
    pub(crate) fn new() -> (s: IdSet)
        ensures
            ids_of(s) == Set::<Oid>::empty(),
    {
        IdSet { set: FnvHashSet::default() }
    }

    /// Calls `HashSet::insert`. Trusted: the id is in the set afterwards, and the result
    /// tells whether it was missing before.
    #[verifier::external_body]
    pub(crate) fn insert(&mut self, oid: Oid) -> (added: bool)
        ensures
            ids_of(*final(self)) == ids_of(*old(self)).insert(oid),
            added == !ids_of(*old(self)).contains(oid),
    {
        self.set.insert(oid)
    }

    /// Calls `HashSet::contains`. Trusted: whether the id is in the set.
    #[verifier::external_body]
    pub(crate) fn contains(&self, oid: Oid) -> (r: bool)
        ensures
            r == ids_of(*self).contains(oid),
    {
        self.set.contains(&oid)
    }

    /// Calls `HashSet::len`. Trusted: how many ids the set holds.
    #[verifier::external_body]
    pub(crate) fn len(&self) -> (n: usize)
        ensures
            n == ids_of(*self).len(),
    {
        self.set.len()
    }
}

/// The location of each id, in a hash map with the FNV hasher, held privately for the same
/// reason as the set's.
#[verifier::external_body]
pub struct LocIds {
    map: FnvHashMap<Oid, Point>,
}

/// What the map holds: a location by id.
pub uninterp spec fn loc_ids_of(m: LocIds) -> Map<Oid, Point>;

impl LocIds {
    /// Calls `FnvHashMap::default`. Trusted: the map starts empty.
    #[verifier::external_body]
    pub(crate) fn new() -> (m: LocIds)
        ensures
            loc_ids_of(m).is_empty(),
    {
        LocIds { map: FnvHashMap::default() }
    }

    /// Calls `HashMap::insert`. Trusted: the id now has the location, and the location it
    /// had, if any, is returned.
    #[verifier::external_body]
    pub(crate) fn insert(&mut self, oid: Oid, loc: Point) -> (old_loc: Option<Point>)
        ensures
            loc_ids_of(*final(self)) == loc_ids_of(*old(self)).insert(oid, loc),
            match old_loc {
                Some(p) => loc_ids_of(*old(self)).contains_key(oid) && p == loc_ids_of(*old(self))[oid],
                None => !loc_ids_of(*old(self)).contains_key(oid),
            },
    {
        self.map.insert(oid, loc)
    }

    /// Calls `HashMap::len`. Trusted: how many ids have a location.
    #[verifier::external_body]
    pub(crate) fn len(&self) -> (n: usize)
        ensures
            n == loc_ids_of(*self).dom().len(),
    {
        self.map.len()
    }
}

} // verus!
