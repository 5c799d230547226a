//! A level: the model of its objects, where each object on the map is, and its NPCs sorted
//! by how far they are from the player.
use crate::lookup::{lemma_swap_keeps_key_order, lemma_swap_multiset, with_key};
use crate::model::{index_of, key, Model};
use crate::object::Object;
use crate::oid::Oid;
use crate::point::{spec_distance2, Point};
use crate::tag::{Tid, CHARACTER_ID, PORTABLE_ID, TERRAIN_ID};
use fnv::FnvHashMap;
use rand::rngs::SmallRng;
use rand::seq::IteratorRandom;
use vstd::prelude::*;

verus! {

/// The location of each object on the map, by id, in a hash map with the FNV hasher. The
/// map is held privately so that the wrappers below are the only access to it: vstd's
/// `HashMap` contracts hold only for hashers that it knows to be deterministic, and the
/// FNV hasher is not among them.
#[verifier::external_body]
pub struct Locations {
    map: FnvHashMap<Oid, Point>,
}

/// What the map holds: a location by id.
pub uninterp spec fn locations_of(m: Locations) -> Map<Oid, Point>;

impl Locations {
    /// Calls `FnvHashMap::default`. Trusted: the map starts empty.
    #[verifier::external_body]
    fn new() -> (m: Locations)
        ensures
            locations_of(m).is_empty(),
    {
        Locations { map: FnvHashMap::default() }
    }

    /// Calls `HashMap::get`. Trusted: the location of the id, if it has one.
    #[verifier::external_body]
    fn get(&self, oid: Oid) -> (r: Option<&Point>)
        ensures
            match r {
                Some(p) => locations_of(*self).contains_key(oid) && *p == locations_of(*self)[oid],
                None => !locations_of(*self).contains_key(oid),
            },
    {
        self.map.get(&oid)
    }

    /// Calls `HashMap::insert`. Trusted: the id now has the location, and the location it
    /// had, if any, is returned.
    #[verifier::external_body]
    fn insert(&mut self, oid: Oid, loc: Point) -> (old_loc: Option<Point>)
        ensures
            locations_of(*final(self)) == locations_of(*old(self)).insert(oid, loc),
            match old_loc {
                Some(p) => locations_of(*old(self)).contains_key(oid) && p == locations_of(*old(self))[oid],
                None => !locations_of(*old(self)).contains_key(oid),
            },
    {
        self.map.insert(oid, loc)
    }

    /// Calls `HashMap::remove`. Trusted: the id has no location afterwards, and the one it
    /// had, if any, is returned.
    #[verifier::external_body]
    fn remove(&mut self, oid: Oid) -> (old_loc: Option<Point>)
        ensures
            locations_of(*final(self)) == locations_of(*old(self)).remove(oid),
            match old_loc {
                Some(p) => locations_of(*old(self)).contains_key(oid) && p == locations_of(*old(self))[oid],
                None => !locations_of(*old(self)).contains_key(oid),
            },
    {
        self.map.remove(&oid)
    }

    /// Calls `HashMap::keys`. Trusted: each id with a location, once, in the order that the
    /// map walks them (which nothing here states).
    #[verifier::external_body]
    fn ids(&self) -> (r: Vec<Oid>)
        ensures
            forall|k: Oid| locations_of(*self).contains_key(k) <==> r@.contains(k),
            r@.no_duplicates(),
    {
        self.map.keys().copied().collect()
    }

    /// Calls `IteratorRandom::choose` on the map's locations. Trusted: one of the locations,
    /// which one depending on the generator; none only when the map is empty.
    #[verifier::external_body]
    fn pick(&self, rng: &mut SmallRng) -> (r: Option<Point>)
        ensures
            r is None <==> locations_of(*self).is_empty(),
            r matches Some(p) ==> exists|k: Oid| locations_of(*self).contains_key(k) && #[trigger] locations_of(*self)[k] == p,
    {
        self.map.values().choose(rng).copied()
    }
}

pub struct Level {
    model: Model,
    locations: Locations,
    /// All NPCs, sorted so that the first is closest to the player when `sorted` is set.
    npcs: Vec<Oid>,
    sorted: bool,
    /// The location that was last modified, used for the cheap checks.
    changed: Point,
    /// The expensive checks are enabled.
    invariants: bool,
}

impl Level {
    pub closed spec fn spec_model(&self) -> Model {
        self.model
    }

    pub closed spec fn locs(&self) -> Map<Oid, Point> {
        locations_of(self.locations)
    }

    pub closed spec fn spec_npcs(&self) -> Seq<Oid> {
        self.npcs@
    }

    pub closed spec fn spec_sorted(&self) -> bool {
        self.sorted
    }

    pub closed spec fn spec_changed(&self) -> Point {
        self.changed
    }

    pub closed spec fn spec_invariants(&self) -> bool {
        self.invariants
    }

    /// A level over the model, with no locations and no NPCs yet.
    pub fn new(model: Model) -> (l: Level)
        ensures
            l.spec_model() == model,
            l.locs().is_empty(),
            l.spec_npcs().len() == 0,
            l.spec_sorted(),
            l.spec_changed() == (Point { x: 0, y: 0 }),
            !l.spec_invariants(),
    {
        Level {
            model,
            locations: Locations::new(),
            npcs: Vec::new(),
            sorted: true,
            changed: Point::new(0, 0),
            invariants: false,
        }
    }

    /// Enables the expensive checks.
    pub fn set_invariants(&mut self, enable: bool)
        ensures
            final(self).spec_invariants() == enable,
            final(self).spec_model() == old(self).spec_model(),
            final(self).locs() == old(self).locs(),
            final(self).spec_npcs() == old(self).spec_npcs(),
            final(self).spec_sorted() == old(self).spec_sorted(),
            final(self).spec_changed() == old(self).spec_changed(),
    {
        self.invariants = enable;
    }

    pub fn player_loc(&self) -> (loc: Point)
        ensures
            loc == self.spec_model().spec_player_loc(),
    {
        self.model.player_loc()
    }

    /// The topmost object at the location with a tag of the id, or the default object.
    pub fn get(&self, loc: Point, tag: Tid) -> (r: Option<(Oid, &Object)>)
        requires
            self.spec_model().wf(),
        ensures
            match r {
                Some((oid, obj)) => self.spec_model().spec_get(loc, tag.0) == Some(oid) && *obj
                    == self.spec_model().objs()[oid],
                None => self.spec_model().spec_get(loc, tag.0) is None,
            },
    {
        self.model.get(loc, tag)
    }

    /// Typically this will be a terrain object.
    pub fn get_bottom(&self, loc: Point) -> (r: (Oid, &Object))
        requires
            self.spec_model().wf(),
        ensures
            r.0 == self.spec_model().cell_at(loc).last(),
            *r.1 == self.spec_model().objs()[r.0],
            r.1.spec_has(TERRAIN_ID),
    {
        self.model.get_bottom(loc)
    }

    /// Character, item, door, or if all else fails terrain.
    pub fn get_top(&self, loc: Point) -> (r: (Oid, &Object))
        requires
            self.spec_model().wf(),
        ensures
            r.0 == self.spec_model().cell_at(loc)[0],
            *r.1 == self.spec_model().objs()[r.0],
            (exists|i: int|
                0 <= i < self.spec_model().cell_at(loc).len() && self.spec_model().objs()[#[trigger] self.spec_model().cell_at(
                    loc,
                )[i]].spec_has(CHARACTER_ID)) ==> r.1.spec_has(CHARACTER_ID),
            r.1.spec_has(TERRAIN_ID) ==> self.spec_model().cell_at(loc).len() == 1,
    {
        self.model.get_top(loc)
    }

    /// The objects at the location, topmost first; none outside the map.
    pub fn cell_iter(&self, loc: Point) -> (r: Vec<(Oid, &Object)>)
        requires
            self.spec_model().wf(),
        ensures
            r@.len() == (if self.spec_model().cells().contains_key(key(loc)) {
                self.spec_model().cells()[key(loc)].len()
            } else {
                0
            }),
            forall|i: int| 0 <= i < r@.len() ==> {
                let oids = self.spec_model().cells()[key(loc)];
                &&& (#[trigger] r@[i]).0 == oids[oids.len() - 1 - i]
                &&& *r@[i].1 == self.spec_model().objs()[r@[i].0]
            },
    {
        self.model.cell_iter(loc)
    }

    pub fn obj(&self, oid: Oid) -> (obj: &Object)
        requires
            self.spec_model().objs().contains_key(oid),
        ensures
            *obj == self.spec_model().objs()[oid],
    {
        self.model.obj(oid)
    }

    /// Where the object is, if it is on the map.
    pub fn obj_loc(&self, oid: Oid) -> (r: Option<&Point>)
        ensures
            match r {
                Some(p) => self.locs().contains_key(oid) && *p == self.locs()[oid],
                None => !self.locs().contains_key(oid),
            },
    {
        self.locations.get(oid)
    }

    pub fn try_obj(&self, oid: Oid) -> (obj: Option<&Object>)
        ensures
            match obj {
                Some(o) => self.spec_model().objs().contains_key(oid) && *o == self.spec_model().objs()[oid],
                None => !self.spec_model().objs().contains_key(oid),
            },
    {
        self.model.try_obj(oid)
    }

    pub fn try_loc(&self, oid: Oid) -> (r: Option<&Point>)
        ensures
            match r {
                Some(p) => self.locs().contains_key(oid) && *p == self.locs()[oid],
                None => !self.locs().contains_key(oid),
            },
    {
        self.locations.get(oid)
    }

    pub fn cell(&self, loc: Point) -> (oids: &Vec<Oid>)
        ensures
            oids@ == self.spec_model().cell_at(loc),
    {
        self.model.cell(loc)
    }

    /// A random location of an object on the map.
    pub fn random_loc(&self, rng: &mut SmallRng) -> (loc: Point)
        requires
            !self.locs().is_empty(),
        ensures
            exists|k: Oid| self.locs().contains_key(k) && #[trigger] self.locs()[k] == loc,
    {
        self.locations.pick(rng).unwrap()
    }

    /// The topmost object at the location with a tag of the id, to change; a location
    /// outside the map gets a copy of the default object first.
    pub fn get_mut(&mut self, loc: Point, tag: Tid) -> (r: Option<(Oid, &mut Object)>)
        requires
            old(self).spec_model().wf(),
            old(self).spec_model().next_ids_free(1),
            old(self).spec_model().spec_next_id() < u32::MAX,
        ensures
            final(self).spec_model().cells().contains_key(key(loc)),
            forall|k: (i32, i32)| #[trigger] old(self).spec_model().cells().contains_key(k)
                ==> final(self).spec_model().cells()[k] == old(self).spec_model().cells()[k],
            final(self).spec_model().spec_player_loc() == old(self).spec_model().spec_player_loc(),
            old(self).spec_model().cells().contains_key(key(loc)) ==> ({
                let oids = old(self).spec_model().cells()[key(loc)];
                let i = crate::model::top_with(old(self).spec_model().objs(), oids, tag.0, oids.len() - 1);
                match r {
                    Some((oid, obj)) => i >= 0 && oid == oids[i] && *obj == old(self).spec_model().objs()[oid]
                        && final(self).spec_model().objs() == old(self).spec_model().objs().insert(oid, *final(obj)),
                    None => i < 0 && final(self).spec_model().objs() == old(self).spec_model().objs(),
                }
            }),
            !old(self).spec_model().cells().contains_key(key(loc)) ==> (final(self).spec_model().cells()[key(loc)]
                == seq![Oid { value: old(self).spec_model().spec_next_id() }] && (r is Some
                <==> old(self).spec_model().objs()[old(self).spec_model().default_oid()].spec_has(tag.0))),
            final(self).locs() == old(self).locs(),
            final(self).spec_npcs() == old(self).spec_npcs(),
            final(self).spec_sorted() == old(self).spec_sorted(),
            final(self).spec_changed() == old(self).spec_changed(),
            final(self).spec_invariants() == old(self).spec_invariants(),
    {
        self.model.get_mut(loc, tag)
    }

    /// Adds the object to the model, at the location if it has one, and returns its id.
    pub fn add(&mut self, obj: Object, loc: Option<Point>) -> (oid: Oid)
        requires
            old(self).spec_model().wf(),
            obj.wf(),
            old(self).spec_model().spec_next_id() < u32::MAX,
            !old(self).spec_model().objs().contains_key(old(self).spec_model().id_for(obj)),
            obj.spec_has(CHARACTER_ID) ==> loc is Some,
            loc matches Some(l) ==> if obj.spec_has(TERRAIN_ID) {
                !old(self).spec_model().cells().contains_key(key(l))
            } else {
                old(self).spec_model().cells().contains_key(key(l)) && (obj.spec_has(CHARACTER_ID)
                    ==> !old(self).spec_model().objs()[old(self).spec_model().cells()[key(l)][0]].spec_has(
                    CHARACTER_ID,
                ))
            },
            loc is Some ==> !old(self).locs().contains_key(old(self).spec_model().id_for(obj)),
        ensures
            final(self).spec_model().wf(),
            oid == old(self).spec_model().id_for(obj),
            final(self).spec_model().objs() == old(self).spec_model().objs().insert(oid, obj),
            match loc {
                Some(l) => final(self).spec_model().cells() == old(self).spec_model().cells().insert(
                    key(l),
                    old(self).spec_model().cell_or_empty(l).insert(
                        old(self).spec_model().insert_index(old(self).spec_model().cell_or_empty(l), obj),
                        oid,
                    ),
                ),
                None => final(self).spec_model().cells() == old(self).spec_model().cells(),
            },
            final(self).spec_model().spec_player_loc() == old(self).spec_model().spec_player_loc(),
            final(self).locs() == match loc {
                Some(l) => old(self).locs().insert(oid, l),
                None => old(self).locs(),
            },
            final(self).spec_changed() == match loc {
                Some(l) => l,
                None => old(self).spec_changed(),
            },
            final(self).spec_npcs() == if obj.spec_has(CHARACTER_ID) && oid.value != 0 {
                old(self).spec_npcs().push(oid)
            } else {
                old(self).spec_npcs()
            },
            final(self).spec_sorted() == (old(self).spec_sorted() && !(obj.spec_has(CHARACTER_ID) && oid.value
                != 0)),
            final(self).spec_invariants() == old(self).spec_invariants(),
    {
        let is_char = obj.has(Tid(CHARACTER_ID));
        let oid = self.model.add(obj, loc);
        let is_npc = is_char && oid.value != 0;
        if let Some(l) = loc {
            self.locations.insert(oid, l);
            self.changed = l;
        }
        if is_npc {
            self.npcs.push(oid);
            self.sorted = false;
        }
        oid
    }

    /// Records where an object that is now on the map is: typically a drop from an
    /// inventory. Only the location is recorded; the model is left as it is.
    pub fn add_oid(&mut self, oid: Oid, loc: Point)
        requires
            old(self).spec_model().objs().contains_key(oid),
            !old(self).spec_model().objs()[oid].spec_has(CHARACTER_ID),
            !old(self).locs().contains_key(oid),
        ensures
            final(self).locs() == old(self).locs().insert(oid, loc),
            final(self).spec_changed() == loc,
            final(self).spec_model() == old(self).spec_model(),
            final(self).spec_npcs() == old(self).spec_npcs(),
            final(self).spec_sorted() == old(self).spec_sorted(),
            final(self).spec_invariants() == old(self).spec_invariants(),
    {
        let obj = self.model.obj(oid);
        let is_char = obj.has(Tid(CHARACTER_ID));
        proof {
            assert(!is_char);
        }
        self.locations.insert(oid, loc);
        self.changed = loc;
    }

    /// Removes the object at the location from the level.
    pub fn remove(&mut self, oid: Oid, loc: Point)
        requires
            old(self).spec_model().wf(),
            old(self).spec_model().objs().contains_key(oid),
            !old(self).spec_model().objs()[oid].spec_has(TERRAIN_ID),
            oid.value != 0,
            old(self).spec_model().cells().contains_key(key(loc)),
            index_of(old(self).spec_model().cells()[key(loc)], oid, 0) >= 0,
            old(self).locs().contains_key(oid),
            old(self).spec_model().objs()[oid].spec_has(CHARACTER_ID) ==> index_of(
                old(self).spec_npcs(),
                oid,
                0,
            ) >= 0,
        ensures
            final(self).spec_model().wf(),
            final(self).spec_model().objs() == old(self).spec_model().objs().remove(oid),
            final(self).spec_model().cells() == old(self).spec_model().cells().insert(
                key(loc),
                old(self).spec_model().cells()[key(loc)].remove(
                    index_of(old(self).spec_model().cells()[key(loc)], oid, 0),
                ),
            ),
            final(self).spec_model().spec_player_loc() == old(self).spec_model().spec_player_loc(),
            final(self).locs() == old(self).locs().remove(oid),
            final(self).spec_changed() == loc,
            final(self).spec_npcs() == if old(self).spec_model().objs()[oid].spec_has(CHARACTER_ID) {
                old(self).spec_npcs().remove(index_of(old(self).spec_npcs(), oid, 0))
            } else {
                old(self).spec_npcs()
            },
            final(self).spec_sorted() == old(self).spec_sorted(),
            final(self).spec_invariants() == old(self).spec_invariants(),
    {
        self.locations.remove(oid);
        self.changed = loc;
        let is_char = self.model.obj(oid).has(Tid(CHARACTER_ID));
        if oid.value != 0 && is_char {
            let index = crate::model::position(&self.npcs, oid).unwrap();
            self.npcs.remove(index);
        }
        self.model.remove(oid, loc);
    }

    /// The character at the location takes the item there into its inventory.
    pub fn pickup(&mut self, loc: Point, oid: Oid)
        requires
            old(self).spec_model().wf(),
            old(self).spec_model().objs().contains_key(oid),
            oid.value != 0,
            old(self).spec_model().objs()[oid].spec_has(PORTABLE_ID),
            !old(self).spec_model().objs()[oid].spec_has(TERRAIN_ID),
            !old(self).spec_model().objs()[oid].spec_has(CHARACTER_ID),
            old(self).spec_model().cells().contains_key(key(loc)),
            index_of(old(self).spec_model().cells()[key(loc)], oid, 0) >= 0,
            old(self).spec_model().objs()[old(self).spec_model().cells()[key(loc)][0]].spec_has(CHARACTER_ID),
            crate::object::can_take(old(self).spec_model().objs()[old(self).spec_model().cells()[key(loc)][0]], oid),
            old(self).locs().contains_key(oid),
        ensures
            final(self).spec_model().wf(),
            ({
                let ch = old(self).spec_model().cells()[key(loc)][0];
                let before = old(self).spec_model().objs()[ch].spec_tags();
                let after = final(self).spec_model().objs()[ch].spec_tags();
                &&& final(self).spec_model().objs().dom() == old(self).spec_model().objs().dom()
                &&& forall|k: Oid| k != ch ==> #[trigger] final(self).spec_model().objs()[k] == old(self).spec_model().objs()[k]
                &&& crate::object::inventory_of(after) == Some(crate::object::inventory_of(before)->0.push(oid))
                &&& after.len() == before.len()
                &&& forall|i: int|
                    0 <= i < before.len() && i != crate::object::find_id(before, crate::tag::INVENTORY_ID, 0) ==> #[trigger] after[i]
                        == before[i]
            }),
            final(self).spec_model().cells() == old(self).spec_model().cells().insert(
                key(loc),
                old(self).spec_model().cells()[key(loc)].remove(
                    index_of(old(self).spec_model().cells()[key(loc)], oid, 0),
                ),
            ),
            final(self).spec_model().spec_player_loc() == old(self).spec_model().spec_player_loc(),
            final(self).locs() == old(self).locs().remove(oid),
            final(self).spec_changed() == loc,
            final(self).spec_npcs() == old(self).spec_npcs(),
            final(self).spec_sorted() == old(self).spec_sorted(),
            final(self).spec_invariants() == old(self).spec_invariants(),
    {
        self.locations.remove(oid);
        self.changed = loc;
        self.model.pickup(loc, oid);
    }

    /// Replaces the object at the location with a new one, which takes its place, and
    /// returns the new id.
    pub fn replace(&mut self, loc: Point, old_oid: Oid, new_obj: Object) -> (new_oid: Oid)
        requires
            old(self).spec_model().wf(),
            old(self).spec_model().objs().contains_key(old_oid),
            old_oid.value != 0,
            old_oid != old(self).spec_model().default_oid(),
            old(self).spec_model().cells().contains_key(key(loc)),
            index_of(old(self).spec_model().cells()[key(loc)], old_oid, 0) >= 0,
            old(self).spec_model().spec_next_id() < u32::MAX,
            !old(self).spec_model().objs().contains_key(old(self).spec_model().id_for(new_obj)),
            ({
                let c = old(self).spec_model().cells()[key(loc)];
                let i = index_of(c, old_oid, 0);
                &&& new_obj.spec_has(TERRAIN_ID) == (i == c.len() - 1)
                &&& i > 0 ==> !new_obj.spec_has(CHARACTER_ID)
                &&& new_obj.spec_has(TERRAIN_ID) ==> !new_obj.spec_has(CHARACTER_ID)
            }),
            old(self).locs().contains_key(old_oid),
            old(self).spec_model().objs()[old_oid].spec_has(CHARACTER_ID) ==> old_oid.value > 1 && index_of(
                old(self).spec_npcs(),
                old_oid,
                0,
            ) >= 0,
            new_obj.spec_has(CHARACTER_ID) ==> old(self).spec_model().id_for(new_obj).value > 1,
        ensures
            final(self).spec_model().wf(),
            new_oid == old(self).spec_model().id_for(new_obj),
            final(self).spec_model().objs() == old(self).spec_model().objs().insert(new_oid, new_obj).remove(old_oid),
            final(self).spec_model().cells() == old(self).spec_model().cells().insert(
                key(loc),
                old(self).spec_model().cells()[key(loc)].update(
                    index_of(old(self).spec_model().cells()[key(loc)], old_oid, 0),
                    new_oid,
                ),
            ),
            final(self).spec_model().spec_player_loc() == old(self).spec_model().spec_player_loc(),
            final(self).locs() == old(self).locs().remove(old_oid).insert(new_oid, loc),
            final(self).spec_changed() == loc,
            ({
                let kept = if old(self).spec_model().objs()[old_oid].spec_has(CHARACTER_ID) {
                    old(self).spec_npcs().remove(index_of(old(self).spec_npcs(), old_oid, 0))
                } else {
                    old(self).spec_npcs()
                };
                final(self).spec_npcs() == if new_obj.spec_has(CHARACTER_ID) {
                    kept.push(new_oid)
                } else {
                    kept
                }
            }),
            final(self).spec_sorted() == (old(self).spec_sorted() && !new_obj.spec_has(CHARACTER_ID)),
            final(self).spec_invariants() == old(self).spec_invariants(),
    {
        self.locations.remove(old_oid);
        if self.model.obj(old_oid).has(Tid(CHARACTER_ID)) {
            let index = crate::model::position(&self.npcs, old_oid).unwrap();
            self.npcs.remove(index);
        }
        let is_char = new_obj.has(Tid(CHARACTER_ID));
        let new_oid = self.model.replace(loc, old_oid, new_obj);
        self.locations.insert(new_oid, loc);
        if is_char {
            self.npcs.push(new_oid);
            self.sorted = false;
        }
        self.changed = loc;
        new_oid
    }

    /// Moves the object from one location to another.
    pub fn change_loc(&mut self, oid: Oid, from: Point, to: Point)
        requires
            old(self).spec_model().wf(),
            old(self).spec_model().objs().contains_key(oid),
            old(self).spec_model().objs()[oid].spec_has(PORTABLE_ID) || old(self).spec_model().objs()[oid].spec_has(
                CHARACTER_ID,
            ),
            !old(self).spec_model().objs()[oid].spec_has(TERRAIN_ID),
            old(self).spec_model().cells().contains_key(key(from)),
            index_of(old(self).spec_model().cells()[key(from)], oid, 0) >= 0,
            old(self).spec_model().cells().contains_key(key(to)),
            old(self).spec_model().objs()[oid].spec_has(CHARACTER_ID) ==> (from == to || !old(
                self,
            ).spec_model().objs()[old(self).spec_model().cells()[key(to)][0]].spec_has(CHARACTER_ID)),
            old(self).locs().contains_key(oid),
            old(self).locs()[oid] == from,
        ensures
            final(self).spec_model().wf(),
            final(self).spec_model().objs() == old(self).spec_model().objs(),
            final(self).spec_model().cells() == old(self).spec_model().moved_cells(oid, from, to),
            final(self).spec_model().cells()[key(to)].contains(oid),
            final(self).spec_model().spec_player_loc() == if oid.value == 0 {
                to
            } else {
                old(self).spec_model().spec_player_loc()
            },
            final(self).locs() == old(self).locs().insert(oid, to),
            final(self).spec_changed() == to,
            !final(self).spec_sorted(),
            final(self).spec_npcs() == old(self).spec_npcs(),
            final(self).spec_invariants() == old(self).spec_invariants(),
    {
        self.locations.insert(oid, to);
        self.model.change_loc(oid, from, to);
        // Very little moves other than characters, so the NPCs are marked for sorting
        // whatever moved.
        self.sorted = false;
        self.changed = to;
    }

    /// Makes sure that the eight locations around the location are cells.
    pub fn ensure_neighbors(&mut self, loc: Point)
        requires
            old(self).spec_model().wf(),
            old(self).spec_model().next_ids_free(8),
            old(self).spec_model().spec_next_id() < u32::MAX - 8,
            i32::MIN < loc.x < i32::MAX,
            i32::MIN < loc.y < i32::MAX,
        ensures
            final(self).spec_model().wf(),
            forall|dx: int, dy: int|
                -1 <= dx <= 1 && -1 <= dy <= 1 && !(dx == 0 && dy == 0) ==> #[trigger] final(self).spec_model().cells().contains_key(
                    ((loc.x + dx) as i32, (loc.y + dy) as i32),
                ),
            forall|k: (i32, i32)| #[trigger] old(self).spec_model().cells().contains_key(k)
                ==> final(self).spec_model().cells()[k] == old(self).spec_model().cells()[k],
            final(self).spec_model().spec_player_loc() == old(self).spec_model().spec_player_loc(),
            final(self).locs() == old(self).locs(),
            final(self).spec_changed() == old(self).spec_changed(),
            final(self).spec_npcs() == old(self).spec_npcs(),
            final(self).spec_sorted() == old(self).spec_sorted(),
            final(self).spec_invariants() == old(self).spec_invariants(),
    {
        self.model.ensure_neighbors(loc);
    }

    /// How far, squared, the NPC is from the player.
    pub open spec fn npc_key(&self, oid: Oid) -> int {
        spec_distance2(self.locs()[oid], self.spec_model().spec_player_loc())
    }

    /// The NPC has a location, at a squared distance from the player that fits an `i32`.
    pub open spec fn npc_placed(&self, oid: Oid) -> bool {
        let p = self.spec_model().spec_player_loc();
        &&& self.locs().contains_key(oid)
        &&& i32::MIN <= self.locs()[oid].x - p.x <= i32::MAX
        &&& i32::MIN <= self.locs()[oid].y - p.y <= i32::MAX
        &&& self.npc_key(oid) <= i32::MAX
    }

    /// Each NPC's squared distance from the player.
    pub open spec fn npc_keys(&self) -> spec_fn(Oid) -> int {
        |o: Oid| self.npc_key(o)
    }

    /// Every NPC is placed.
    pub open spec fn npcs_placed(&self) -> bool {
        forall|i: int| 0 <= i < self.spec_npcs().len() ==> self.npc_placed(#[trigger] self.spec_npcs()[i])
    }

    fn npc_distance(&self, oid: Oid) -> (d: i32)
        requires
            self.npc_placed(oid),
        ensures
            d == self.npc_key(oid),
    {
        let player = self.model.player_loc();
        self.locations.get(oid).unwrap().distance2(&player)
    }

    /// The NPCs, closest to the player first. They are sorted again only after something
    /// moved; the sort keeps the order of NPCs at the same distance.
    pub fn npcs(&mut self) -> (r: Vec<Oid>)
        requires
            old(self).npcs_placed(),
        ensures
            r@ == final(self).spec_npcs(),
            final(self).spec_sorted(),
            final(self).spec_npcs().to_multiset() == old(self).spec_npcs().to_multiset(),
            old(self).spec_sorted() ==> final(self).spec_npcs() == old(self).spec_npcs(),
            !old(self).spec_sorted() ==> forall|i: int, j: int|
                0 <= i < j < final(self).spec_npcs().len() ==> old(self).npc_key(
                    #[trigger] final(self).spec_npcs()[i],
                ) <= old(self).npc_key(#[trigger] final(self).spec_npcs()[j]),
            forall|k: int| #[trigger] with_key(final(self).spec_npcs(), old(self).npc_keys(), k) == with_key(
                old(self).spec_npcs(),
                old(self).npc_keys(),
                k,
            ),
            final(self).spec_model() == old(self).spec_model(),
            final(self).locs() == old(self).locs(),
            final(self).spec_changed() == old(self).spec_changed(),
            final(self).spec_invariants() == old(self).spec_invariants(),
    {
        if !self.sorted {
            let mut v: Vec<Oid> = self.npcs.clone();
            let ghost start = v@;
            proof {
                assert(v@ =~= self.npcs@);
                assert forall|k: int| 0 <= k < v@.len() implies self.npc_placed(#[trigger] v@[k]) by {
                    assert(self.spec_npcs()[k] == v@[k]);
                }
            }
            let n = v.len();
            // Insertion sort, which keeps the order of equal keys.
            let mut i: usize = 1;
            while i < n
                invariant
                    v@.len() == n,
                    1 <= i || n == 0,
                    v@.to_multiset() == start.to_multiset(),
                    forall|k: int| #[trigger] with_key(v@, self.npc_keys(), k) == with_key(start, self.npc_keys(), k),
                    forall|k: int| 0 <= k < n ==> self.npc_placed(#[trigger] v@[k]),
                    forall|a: int, b: int|
                        0 <= a < b < i && b < n ==> self.npc_key(#[trigger] v@[a]) <= self.npc_key(
                            #[trigger] v@[b],
                        ),
                decreases n - i,
            {
                let mut j = i;
                while j > 0 && self.npc_distance(v[j - 1]) > self.npc_distance(v[j])
                    invariant
                        v@.len() == n,
                        0 <= j <= i < n,
                        v@.to_multiset() == start.to_multiset(),
                        forall|k: int| #[trigger] with_key(v@, self.npc_keys(), k) == with_key(start, self.npc_keys(), k),
                        forall|k: int| 0 <= k < n ==> self.npc_placed(#[trigger] v@[k]),
                        forall|a: int, b: int|
                            0 <= a < b <= i && b != j && a != j ==> self.npc_key(#[trigger] v@[a])
                                <= self.npc_key(#[trigger] v@[b]),
                        forall|a: int| j < a <= i ==> self.npc_key(v@[j as int]) < self.npc_key(#[trigger] v@[a]),
                        forall|a: int| 0 <= a < j && j < i ==> self.npc_key(#[trigger] v@[a]) <= self.npc_key(v@[j + 1]),
                    decreases j,
                {
                    let ghost pre = v@;
                    let a = v[j - 1];
                    let b = v[j];
                    v.set(j - 1, b);
                    v.set(j, a);
                    proof {
                        assert(v@ =~= pre.update(j - 1, pre[j as int]).update(j as int, pre[j - 1]));
                        lemma_swap_multiset(pre, j - 1, j as int);
                        lemma_swap_keeps_key_order(pre, j - 1, self.npc_keys());
                    }
                    j = j - 1;
                }
                i = i + 1;
            }
            self.npcs = v;
            self.sorted = true;
        }
        self.npcs.clone()
    }

    /// Every object with a location exists and is in the cell there.
    pub open spec fn expensive_checks(&self) -> bool {
        forall|k: Oid| #[trigger] self.locs().contains_key(k) ==> self.spec_model().objs().contains_key(k)
            && self.spec_model().cell_at(self.locs()[k]).contains(k)
    }

    /// Whether every object with a location exists and is in the cell there.
    pub fn expensive_invariants(&self) -> (ok: bool)
        ensures
            ok == self.expensive_checks(),
    {
        let ids = self.locations.ids();
        let ghost ks = ids@;
        let mut a: usize = 0;
        while a < ids.len()
            invariant
                ks == ids@,
                a <= ks.len(),
                forall|k: Oid| self.locs().contains_key(k) <==> ks.contains(k),
                forall|x: int|
                    0 <= x < a ==> self.spec_model().objs().contains_key(#[trigger] ks[x])
                        && self.spec_model().cell_at(self.locs()[ks[x]]).contains(ks[x]),
            decreases ks.len() - a,
        {
            let oid = ids[a];
            proof {
                assert(ks.contains(oid));
            }
            let loc = *self.locations.get(oid).unwrap();
            if self.model.try_obj(oid).is_none() {
                return false;
            }
            let oids = self.model.cell(loc);
            match crate::model::position(oids, oid) {
                Some(_) => {
                    proof {
                        crate::model::lemma_index_of(oids@, oid, 0);
                    }
                },
                None => {
                    proof {
                        crate::model::lemma_index_of(oids@, oid, 0);
                    }
                    return false;
                },
            }
            a = a + 1;
        }
        proof {
            assert forall|k: Oid| #[trigger] self.locs().contains_key(k) implies self.spec_model().objs().contains_key(k)
                && self.spec_model().cell_at(self.locs()[k]).contains(k) by {
                assert(ks.contains(k));
                let x = ks.index_of(k);
                assert(self.spec_model().objs().contains_key(ks[x]));
            }
        }
        true
    }

    /// The checks made after each change: the model's checks at the location last changed,
    /// and, with the expensive checks enabled, the model's and the level's whole checks.
    pub open spec fn checks(&self) -> bool {
        &&& self.spec_model().cheap_checks(self.spec_changed())
        &&& self.spec_invariants() ==> self.spec_model().expensive_checks() && self.expensive_checks()
    }

    /// Whether the checks made after each change hold.
    pub fn check_invariant(&self) -> (ok: bool)
        requires
            self.spec_model().wf(),
        ensures
            ok == self.checks(),
    {
        proof {
            let m = self.spec_model();
            assert forall|l: (i32, i32)| #[trigger] m.cells().contains_key(l) implies forall|i: int|
                0 <= i < m.cells()[l].len() ==> m.objs().contains_key(#[trigger] m.cells()[l][i]) by {
                assert(crate::model::cell_ok(m.objs(), m.cells()[l]));
            }
        }
        if !self.model.cheap_invariants(self.changed) {
            return false;
        }
        if self.invariants {
            self.model.expensive_invariants() && self.expensive_invariants()
        } else {
            true
        }
    }
}



} // verus!
