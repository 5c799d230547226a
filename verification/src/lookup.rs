//! Finds the objects of a level: every object by id with where it is, and the objects at
//! each location of the map. Within a cell the terrain comes first and a character, if
//! there is one, last. Locations outside the map share a default object (id 1); the
//! player is id 0.
use crate::id_set::{ids_of, IdSet};
use crate::model::{key, index_of, lemma_index_of, lemma_top_with, position, top_with, CellMap, cells_of};
use crate::object::{self, Object};
use crate::oid::Oid;
use crate::point::{spec_distance2, Point};
use crate::tag::{self, Tag, Tid, CHARACTER_ID, INVENTORY_ID, PLAYER_ID, TERRAIN_ID};
use crate::random::choose_one;
use fnv::FnvHashMap;
use rand::rngs::SmallRng;
use vstd::prelude::*;

verus! {

/// An object and where it is: on the map, or (for items in an inventory) nowhere.
pub struct Entry {
    pub obj: Object,
    pub loc: Option<Point>,
}

/// Every entry by id, in a hash map with the FNV hasher. The map is held privately so that
/// the wrappers below are the only access to it: vstd's `HashMap` contracts hold only for
/// hashers that it knows to be deterministic, and the FNV hasher is not among them.
#[verifier::external_body]
pub struct EntryMap {
    map: FnvHashMap<Oid, Entry>,
}

/// What the map holds: each entry by its object's id.
pub uninterp spec fn entries_of(m: EntryMap) -> Map<Oid, Entry>;

impl EntryMap {
    /// Calls `FnvHashMap::default`. Trusted: the map starts empty.
    #[verifier::external_body]
    fn new() -> (m: EntryMap)
        ensures
            entries_of(m).is_empty(),
    {
        EntryMap { map: FnvHashMap::default() }
    }

    /// Calls `HashMap::contains_key`. Trusted: whether the id has an entry.
    #[verifier::external_body]
    fn contains_key(&self, oid: Oid) -> (r: bool)
        ensures
            r == entries_of(*self).contains_key(oid),
    {
        self.map.contains_key(&oid)
    }

    /// Calls `HashMap::len`. Trusted: the number of entries.
    #[verifier::external_body]
    fn len(&self) -> (n: usize)
        ensures
            n == entries_of(*self).dom().len(),
    {
        self.map.len()
    }

    /// Calls `HashMap::keys`. Trusted: each id with an entry, once, in the order that the
    /// map walks them (which nothing here states).
    #[verifier::external_body]
    fn ids(&self) -> (r: Vec<Oid>)
        ensures
            forall|k: Oid| entries_of(*self).contains_key(k) <==> r@.contains(k),
            r@.no_duplicates(),
    {
        self.map.keys().copied().collect()
    }

    /// Calls `HashMap::get`. Trusted: the entry with the id, if there is one.
    #[verifier::external_body]
    fn get(&self, oid: Oid) -> (r: Option<&Entry>)
        ensures
            match r {
                Some(e) => entries_of(*self).contains_key(oid) && *e == entries_of(*self)[oid],
                None => !entries_of(*self).contains_key(oid),
            },
    {
        self.map.get(&oid)
    }

    /// Calls `HashMap::get_mut` on an id that has an entry. Trusted: the entry, which the
    /// map then holds as the caller leaves it.
    #[verifier::external_body]
    fn get_mut(&mut self, oid: Oid) -> (r: &mut Entry)
        requires
            entries_of(*old(self)).contains_key(oid),
        ensures
            *r == entries_of(*old(self))[oid],
            entries_of(*final(self)) == entries_of(*old(self)).insert(oid, *final(r)),
    {
        self.map.get_mut(&oid).unwrap()
    }

    /// Calls `HashMap::insert`. Trusted: the id now has the entry, and the entry it had, if
    /// any, is returned.
    #[verifier::external_body]
    fn insert(&mut self, oid: Oid, entry: Entry) -> (old_entry: Option<Entry>)
        ensures
            entries_of(*final(self)) == entries_of(*old(self)).insert(oid, entry),
            match old_entry {
                Some(e) => entries_of(*old(self)).contains_key(oid) && e == entries_of(
                    *old(self),
                )[oid],
                None => !entries_of(*old(self)).contains_key(oid),
            },
    {
        self.map.insert(oid, entry)
    }

    /// Calls `HashMap::remove`. Trusted: the id has no entry afterwards.
    #[verifier::external_body]
    fn remove(&mut self, oid: Oid)
        ensures
            entries_of(*final(self)) == entries_of(*old(self)).remove(oid),
    {
        self.map.remove(&oid);
    }
}

/// Swapping two elements keeps what the sequence holds.
pub(crate) proof fn lemma_swap_multiset<T>(s: Seq<T>, i: int, j: int)
    requires
        0 <= i < s.len(),
        0 <= j < s.len(),
    ensures
        s.update(i, s[j]).update(j, s[i]).to_multiset() =~= s.to_multiset(),
{
    broadcast use {
        vstd::seq_lib::group_to_multiset_ensures,
        vstd::multiset::group_multiset_axioms,
    };

    let s1 = s.update(i, s[j]);
    assert(s1.to_multiset() == s.to_multiset().insert(s[j]).remove(s[i]));
    assert(s1.update(j, s[i]).to_multiset() == s1.to_multiset().insert(s[i]).remove(s1[j]));
    if i == j {
        assert(s1.update(j, s[i]) =~= s);
    } else {
        assert(s1[j] == s[j]);
    }
}

/// Whether an id has the key.
pub open spec fn key_is(key: spec_fn(Oid) -> int, k: int) -> spec_fn(Oid) -> bool {
    |o: Oid| key(o) == k
}

/// The ids with the key, in their order.
pub open spec fn with_key(s: Seq<Oid>, key: spec_fn(Oid) -> int, k: int) -> Seq<Oid> {
    s.filter(key_is(key, k))
}

/// Swapping two neighbours with different keys keeps the order of the ids of each key.
pub(crate) proof fn lemma_swap_keeps_key_order(s: Seq<Oid>, i: int, key: spec_fn(Oid) -> int)
    requires
        0 <= i,
        i + 1 < s.len(),
        key(s[i]) != key(s[i + 1]),
    ensures
        forall|k: int| #[trigger] with_key(s.update(i, s[i + 1]).update(i + 1, s[i]), key, k) == with_key(s, key, k),
{
    let t = s.update(i, s[i + 1]).update(i + 1, s[i]);
    let a = s.subrange(0, i);
    let b = s.subrange(i + 2, s.len() as int);
    let x = seq![s[i], s[i + 1]];
    let y = seq![s[i + 1], s[i]];
    assert(s =~= a + x + b);
    assert(t =~= a + y + b);
    assert forall|k: int| #[trigger] with_key(t, key, k) == with_key(s, key, k) by {
        let p = key_is(key, k);
        Seq::filter_distributes_over_add(a + x, b, p);
        Seq::filter_distributes_over_add(a, x, p);
        Seq::filter_distributes_over_add(a + y, b, p);
        Seq::filter_distributes_over_add(a, y, p);
        reveal_with_fuel(Seq::filter, 3);
        assert(x.drop_last() =~= seq![s[i]]);
        assert(y.drop_last() =~= seq![s[i + 1]]);
        assert(seq![s[i]].drop_last() =~= Seq::<Oid>::empty());
        assert(seq![s[i + 1]].drop_last() =~= Seq::<Oid>::empty());
        assert(x.filter(p) =~= y.filter(p));
    }
}

/// Adding an object (not the player) on top of a cell and then removing it again gives
/// back the objects and the cells from before.
pub proof fn law_add_then_remove(l0: Lookup, l1: Lookup, l2: Lookup, obj: Object, loc: Point)
    requires
        l0.cells_exist(),
        !obj.spec_has(PLAYER_ID),
        !l0.entries().contains_key(l0.id_for(obj)),
        l0.cells().contains_key((loc.x, loc.y)),
        l1.entries() == l0.entries().insert(l0.id_for(obj), Entry { obj, loc: Some(loc) }),
        l1.cells() == l0.pushed(loc, l0.id_for(obj)),
        l2.entries() == l1.entries().remove(l0.id_for(obj)),
        l2.cells() == l1.taken(loc, l0.id_for(obj)),
    ensures
        l2.entries() == l0.entries(),
        l2.cells() == l0.cells(),
{
    let oid = l0.id_for(obj);
    let k = (loc.x, loc.y);
    let c = l0.cells()[k];
    let c2 = c.push(oid);
    assert(l1.cells()[k] == c2);
    lemma_index_of(c2, oid, 0);
    let found = index_of(c2, oid, 0);
    assert(c2[c.len() as int] == oid);
    if found < c.len() {
        assert(c2[found] == c[found]);
        assert(l0.entries().contains_key(c[found]));
    }
    assert(found == c.len());
    assert(c2.remove(found) =~= c);
    assert(l2.cells() =~= l0.cells());
    assert(l2.entries() =~= l0.entries());
}

pub struct Lookup {
    objects: EntryMap,
    cells: CellMap,
    /// All NPCs, sorted so that the first is closest to the player when `sorted` is set.
    npcs: Vec<Oid>,
    sorted: bool,
    next_id: u32,
    player_loc: Point,
    default: Object,
    default_oids: Vec<Oid>,
    /// The location that was last modified, used for the cheap checks.
    changed: Point,
    /// The level is in the process of being constructed.
    constructing: bool,
    /// The expensive checks are enabled.
    invariants: bool,
}

impl Lookup {
    pub closed spec fn entries(&self) -> Map<Oid, Entry> {
        entries_of(self.objects)
    }

    pub closed spec fn cells(&self) -> Map<(i32, i32), Seq<Oid>> {
        cells_of(self.cells)
    }

    pub closed spec fn spec_npcs(&self) -> Seq<Oid> {
        self.npcs@
    }

    pub closed spec fn spec_sorted(&self) -> bool {
        self.sorted
    }

    pub closed spec fn spec_next_id(&self) -> u32 {
        self.next_id
    }

    pub closed spec fn spec_player_loc(&self) -> Point {
        self.player_loc
    }

    pub closed spec fn spec_default(&self) -> Object {
        self.default
    }

    pub closed spec fn spec_changed(&self) -> Point {
        self.changed
    }

    pub closed spec fn spec_constructing(&self) -> bool {
        self.constructing
    }

    pub closed spec fn spec_invariants(&self) -> bool {
        self.invariants
    }

    /// The objects by id.
    pub open spec fn objs(&self) -> Map<Oid, Object> {
        Map::new(|k: Oid| self.entries().contains_key(k), |k: Oid| self.entries()[k].obj)
    }

    /// Every id in a cell has an entry.
    pub open spec fn cells_exist(&self) -> bool {
        forall|l: (i32, i32), i: int|
            self.cells().contains_key(l) && 0 <= i < self.cells()[l].len() ==> self.entries().contains_key(
                #[trigger] self.cells()[l][i],
            )
    }

    /// The default object (a stone wall) is used for the locations that are not cells.
    pub fn new() -> (l: Lookup)
        ensures
            l.entries().is_empty(),
            l.cells().is_empty(),
            l.cells_exist(),
            l.spec_npcs().len() == 0,
            l.spec_sorted(),
            l.spec_next_id() == 2,
            l.spec_player_loc() == (Point { x: 0, y: 0 }),
            l.spec_default().spec_name() == object::ObjectName::StoneWall,
            l.spec_default().wf(),
            l.spec_constructing(),
            !l.spec_invariants(),
    {
        let mut default_oids: Vec<Oid> = Vec::new();
        default_oids.push(Oid::without_tag(1));
        Lookup {
            objects: EntryMap::new(),
            cells: CellMap::new(),
            npcs: Vec::new(),
            sorted: true,
            next_id: 2,
            player_loc: Point::new(0, 0),
            default: crate::make::new_obj(object::ObjectName::StoneWall),
            default_oids,
            changed: Point::new(0, 0),
            constructing: true,
            invariants: false,
        }
    }

    pub fn set_constructing(&mut self, value: bool)
        ensures
            final(self).spec_constructing() == value,
            final(self).entries() == old(self).entries(),
            final(self).cells() == old(self).cells(),
            final(self).spec_npcs() == old(self).spec_npcs(),
            final(self).spec_next_id() == old(self).spec_next_id(),
            final(self).spec_player_loc() == old(self).spec_player_loc(),
            final(self).spec_invariants() == old(self).spec_invariants(),
            old(self).cells_exist() ==> final(self).cells_exist(),
    {
        self.constructing = value;
        proof {
            assert(self.entries() == old(self).entries());
            assert(self.cells() == old(self).cells());
            if old(self).cells_exist() {
                assert forall|l: (i32, i32), i: int|
                    self.cells().contains_key(l) && 0 <= i < self.cells()[l].len() implies self.entries().contains_key(
                    #[trigger] self.cells()[l][i],
                ) by {
                    assert(old(self).cells()[l][i] == self.cells()[l][i]);
                }
            }
        }
    }

    /// Enables the expensive checks.
    pub fn set_invariants(&mut self, enable: bool)
        ensures
            final(self).spec_invariants() == enable,
            final(self).entries() == old(self).entries(),
            final(self).cells() == old(self).cells(),
            final(self).spec_npcs() == old(self).spec_npcs(),
            final(self).spec_next_id() == old(self).spec_next_id(),
            final(self).spec_player_loc() == old(self).spec_player_loc(),
            final(self).spec_constructing() == old(self).spec_constructing(),
            old(self).cells_exist() ==> final(self).cells_exist(),
    {
        self.invariants = enable;
        proof {
            assert(self.entries() == old(self).entries());
            assert(self.cells() == old(self).cells());
            if old(self).cells_exist() {
                assert forall|l: (i32, i32), i: int|
                    self.cells().contains_key(l) && 0 <= i < self.cells()[l].len() implies self.entries().contains_key(
                    #[trigger] self.cells()[l][i],
                ) by {
                    assert(old(self).cells()[l][i] == self.cells()[l][i]);
                }
            }
        }
    }

    pub fn player_loc(&self) -> (loc: Point)
        ensures
            loc == self.spec_player_loc(),
    {
        self.player_loc
    }

    /// The location is a cell with an object with a tag of the id.
    pub open spec fn in_cell(&self, loc: Point, id: u16) -> bool {
        let oids = self.cells()[(loc.x, loc.y)];
        self.cells().contains_key((loc.x, loc.y)) && top_with(self.objs(), oids, id, oids.len() - 1)
            >= 0
    }

    /// The ids at the location with another id put on top (a new cell if there was none).
    pub open spec fn pushed(&self, loc: Point, oid: Oid) -> Map<(i32, i32), Seq<Oid>> {
        let c = if self.cells().contains_key((loc.x, loc.y)) {
            self.cells()[(loc.x, loc.y)]
        } else {
            Seq::empty()
        };
        self.cells().insert((loc.x, loc.y), c.push(oid))
    }

    /// The id that an object added now gets: the player's, or the next one.
    pub open spec fn id_for(&self, obj: Object) -> Oid {
        if obj.spec_has(PLAYER_ID) {
            Oid { value: 0 }
        } else {
            Oid { value: self.spec_next_id() }
        }
    }

    /// The topmost object at the location with a tag of the id, as `get` finds it.
    pub open spec fn spec_get(&self, loc: Point, id: u16) -> Option<Oid> {
        let oids = self.cells()[(loc.x, loc.y)];
        let i = top_with(self.objs(), oids, id, oids.len() - 1);
        if self.cells().contains_key((loc.x, loc.y)) && i >= 0 {
            Some(oids[i])
        } else if self.spec_default().spec_has(id) {
            Some(Oid { value: 1 })
        } else {
            None
        }
    }

    /// The topmost object at the location with a tag of the id: in the cell, or else the
    /// default object (id 1) if it has such a tag.
    pub fn get(&self, loc: Point, tag: Tid) -> (r: Option<(Oid, &Object)>)
        requires
            self.cells_exist(),
        ensures
            match r {
                Some((oid, obj)) => self.spec_get(loc, tag.0) == Some(oid) && *obj == (if self.in_cell(
                    loc,
                    tag.0,
                ) {
                    self.objs()[oid]
                } else {
                    self.spec_default()
                }),
                None => self.spec_get(loc, tag.0) is None,
            },
    {
        if let Some(oids) = self.cells.get(loc) {
            let ghost l = (loc.x, loc.y);
            let mut i = oids.len();
            while i > 0
                invariant
                    i <= oids@.len(),
                    oids@ == self.cells()[l],
                    l == (loc.x, loc.y),
                    self.cells().contains_key(l),
                    self.cells_exist(),
                    top_with(self.objs(), oids@, tag.0, oids@.len() - 1) == top_with(
                        self.objs(),
                        oids@,
                        tag.0,
                        i - 1,
                    ),
                decreases i,
            {
                let oid = oids[i - 1];
                proof {
                    assert(self.entries().contains_key(self.cells()[l][i - 1]));
                }
                let entry = self.objects.get(oid).unwrap();
                if entry.obj.has(tag) {
                    return Some((oid, &entry.obj));
                }
                i = i - 1;
            }
        }
        if self.default.has(tag) {
            Some((Oid::without_tag(1), &self.default))
        } else {
            None
        }
    }

    /// The bottom object at the location (its terrain), or the default object outside the
    /// map.
    pub fn get_bottom(&self, loc: Point) -> (r: (Oid, &Object))
        requires
            self.cells_exist(),
            self.cells().contains_key((loc.x, loc.y)) ==> self.cells()[(loc.x, loc.y)].len() > 0,
        ensures
            self.cells().contains_key((loc.x, loc.y)) ==> r.0 == self.cells()[(loc.x, loc.y)][0]
                && *r.1 == self.objs()[r.0],
            !self.cells().contains_key((loc.x, loc.y)) ==> r.0 == (Oid { value: 1 }) && *r.1
                == self.spec_default(),
    {
        if let Some(oids) = self.cells.get(loc) {
            let oid = oids[0];
            proof {
                assert(self.entries().contains_key(self.cells()[(loc.x, loc.y)][0]));
            }
            let entry = self.objects.get(oid).unwrap();
            (oid, &entry.obj)
        } else {
            (Oid::without_tag(1), &self.default)
        }
    }

    /// Character, item, door, or if all else fails terrain.
    pub fn get_top(&self, loc: Point) -> (r: (Oid, &Object))
        requires
            self.cells_exist(),
            self.cells().contains_key((loc.x, loc.y)) ==> self.cells()[(loc.x, loc.y)].len() > 0,
        ensures
            self.cells().contains_key((loc.x, loc.y)) ==> r.0 == self.cells()[(loc.x, loc.y)].last()
                && *r.1 == self.objs()[r.0],
            !self.cells().contains_key((loc.x, loc.y)) ==> r.0 == (Oid { value: 1 }) && *r.1
                == self.spec_default(),
    {
        if let Some(oids) = self.cells.get(loc) {
            let oid = oids[oids.len() - 1];
            proof {
                let c = self.cells()[(loc.x, loc.y)];
                assert(self.entries().contains_key(c[c.len() - 1]));
            }
            let entry = self.objects.get(oid).unwrap();
            (oid, &entry.obj)
        } else {
            (Oid::without_tag(1), &self.default)
        }
    }

    /// The object with the id, which must exist, and where it is.
    pub fn obj(&self, oid: Oid) -> (r: (&Object, Option<Point>))
        requires
            self.entries().contains_key(oid),
        ensures
            *r.0 == self.entries()[oid].obj,
            r.1 == self.entries()[oid].loc,
    {
        let entry = self.objects.get(oid).unwrap();
        (&entry.obj, entry.loc)
    }

    /// A random location of a cell, none only when there are no cells.
    pub fn random_loc(&self, rng: &mut SmallRng) -> (r: Option<Point>)
        ensures
            r is None <==> self.cells().is_empty(),
            r matches Some(p) ==> self.cells().contains_key((p.x, p.y)),
    {
        let locs = self.cells.locs();
        proof {
            if !self.cells().is_empty() {
                let l = self.cells().dom().choose();
                assert(self.cells().contains_key(l));
                let i = choose|i: int| 0 <= i < locs@.len() && (#[trigger] locs@[i]).x == l.0 && locs@[i].y == l.1;
                assert(locs@.len() > 0);
            } else {
                if locs@.len() > 0 {
                    assert(self.cells().contains_key((locs@[0].x, locs@[0].y)));
                }
            }
        }
        let r = choose_one(&locs, rng);
        proof {
            if let Some(p) = r {
                let i = choose|i: int| 0 <= i < locs@.len() && locs@[i] == p;
                assert(self.cells().contains_key(((locs@[i]).x, locs@[i].y)));
            }
        }
        r
    }

    /// The ids at the location, or the default object's outside the map.
    pub fn cell(&self, loc: Point) -> (oids: &Vec<Oid>)
        ensures
            oids@ == if self.cells().contains_key((loc.x, loc.y)) {
                self.cells()[(loc.x, loc.y)]
            } else {
                self.default_ids()
            },
    {
        if let Some(oids) = self.cells.get(loc) {
            oids
        } else {
            &self.default_oids
        }
    }

    fn next_oid(&mut self, obj: &Object) -> (oid: Oid)
        requires
            old(self).spec_next_id() < u32::MAX,
        ensures
            oid == old(self).id_for(*obj),
            final(self).spec_next_id() == if obj.spec_has(PLAYER_ID) {
                old(self).spec_next_id()
            } else {
                (old(self).spec_next_id() + 1) as u32
            },
            final(self).entries() == old(self).entries(),
            final(self).cells() == old(self).cells(),
            final(self).spec_npcs() == old(self).spec_npcs(),
            final(self).spec_player_loc() == old(self).spec_player_loc(),
            final(self).spec_default() == old(self).spec_default(),
            final(self).spec_constructing() == old(self).spec_constructing(),
    {
        if obj.has(Tid(PLAYER_ID)) {
            Oid::without_tag(0)
        } else {
            let o = Oid::without_tag(self.next_id);
            self.next_id = self.next_id + 1;
            o
        }
    }

    /// Makes the location, which is not a cell, a cell of its own with a copy of the
    /// default object under the next id.
    fn add_default(&mut self, new_loc: Point)
        requires
            old(self).spec_next_id() < u32::MAX,
            !old(self).cells().contains_key((new_loc.x, new_loc.y)),
        ensures
            final(self).spec_next_id() == old(self).spec_next_id() + 1,
            final(self).cells() == old(self).cells().insert(
                (new_loc.x, new_loc.y),
                seq![Oid { value: old(self).spec_next_id() }],
            ),
            final(self).entries().dom() == old(self).entries().dom().insert(
                Oid { value: old(self).spec_next_id() },
            ),
            forall|k: Oid| k != (Oid { value: old(self).spec_next_id() }) ==> #[trigger] final(self).entries()[k]
                == old(self).entries()[k],
            final(self).entries()[Oid { value: old(self).spec_next_id() }].loc == Some(new_loc),
            forall|id: u16| #[trigger] final(self).entries()[Oid { value: old(self).spec_next_id() }].obj.spec_has(id)
                == old(self).spec_default().spec_has(id),
            final(self).spec_npcs() == old(self).spec_npcs(),
            final(self).spec_player_loc() == old(self).spec_player_loc(),
            final(self).spec_default() == old(self).spec_default(),
            final(self).spec_constructing() == old(self).spec_constructing(),
            old(self).cells_exist() ==> final(self).cells_exist(),
    {
        let oid = Oid::without_tag(self.next_id);
        self.next_id = self.next_id + 1;
        let obj = self.default.clone();
        proof {
            assert forall|id: u16| #[trigger] obj.spec_has(id) == self.default.spec_has(id) by {
                object::lemma_same_tags_find(obj.spec_tags(), self.default.spec_tags(), id, 0);
            }
        }
        let _ = self.objects.insert(oid, Entry { obj, loc: Some(new_loc) });
        let mut oids: Vec<Oid> = Vec::new();
        oids.push(oid);
        let ghost before_cells = self.cells();
        self.cells.insert(new_loc, oids);
        proof {
            assert(self.cells() =~= before_cells.insert((new_loc.x, new_loc.y), seq![oid]));
            assert(self.entries().dom() =~= old(self).entries().dom().insert(oid));
            if old(self).cells_exist() {
                assert forall|l: (i32, i32), i: int|
                    self.cells().contains_key(l) && 0 <= i < self.cells()[l].len() implies self.entries().contains_key(
                    #[trigger] self.cells()[l][i],
                ) by {
                    if l != (new_loc.x, new_loc.y) {
                        assert(old(self).cells()[l][i] == self.cells()[l][i]);
                    }
                }
            }
        }
    }

    /// Ensure that points around loc are in cells. This is typically used after something
    /// like a dig action so that characters can interact with newly exposed cells.
    pub fn ensure_neighbors(&mut self, loc: Point)
        requires
            old(self).spec_next_id() < u32::MAX - 8,
            i32::MIN < loc.x < i32::MAX,
            i32::MIN < loc.y < i32::MAX,
        ensures
            forall|dx: int, dy: int|
                -1 <= dx <= 1 && -1 <= dy <= 1 && !(dx == 0 && dy == 0) ==> #[trigger] final(self).cells().contains_key(
                    ((loc.x + dx) as i32, (loc.y + dy) as i32),
                ),
            forall|k: (i32, i32)| #[trigger] old(self).cells().contains_key(k) ==> final(self).cells().contains_key(k)
                && final(self).cells()[k] == old(self).cells()[k],
            final(self).spec_player_loc() == old(self).spec_player_loc(),
            final(self).spec_npcs() == old(self).spec_npcs(),
            old(self).cells_exist() ==> final(self).cells_exist(),
    {
        let deltas: Vec<(i32, i32)> = vec![(-1, -1), (-1, 1), (-1, 0), (1, -1), (1, 1), (1, 0), (0, -1), (0, 1)];
        let ghost start = *self;
        let mut n: usize = 0;
        while n < deltas.len()
            invariant
                deltas@ == seq![(-1i32, -1i32), (-1i32, 1i32), (-1i32, 0i32), (1i32, -1i32), (1i32, 1i32), (1i32, 0i32), (0i32, -1i32), (0i32, 1i32)],
                n <= 8,
                self.spec_next_id() <= start.spec_next_id() + n,
                start.spec_next_id() < u32::MAX - 8,
                i32::MIN < loc.x < i32::MAX,
                i32::MIN < loc.y < i32::MAX,
                forall|m: int| #![trigger deltas@[m]] 0 <= m < n ==> self.cells().contains_key(
                    ((loc.x + deltas@[m].0) as i32, (loc.y + deltas@[m].1) as i32),
                ),
                forall|k: (i32, i32)| #[trigger] start.cells().contains_key(k) ==> self.cells().contains_key(k) && self.cells()[k]
                    == start.cells()[k],
                self.spec_player_loc() == start.spec_player_loc(),
                self.spec_npcs() == start.spec_npcs(),
                start.cells_exist() ==> self.cells_exist(),
            decreases 8 - n,
        {
            let delta = deltas[n];
            let new_loc = Point::new(loc.x + delta.0, loc.y + delta.1);
            if !self.cells.contains_key(new_loc) {
                self.add_default(new_loc);
            }
            n = n + 1;
        }
        proof {
            assert forall|dx: int, dy: int|
                -1 <= dx <= 1 && -1 <= dy <= 1 && !(dx == 0 && dy == 0) implies #[trigger] self.cells().contains_key(
                    ((loc.x + dx) as i32, (loc.y + dy) as i32),
                ) by {
                let m = if dx == -1 && dy == -1 { 0 } else if dx == -1 && dy == 1 { 1 } else if dx == -1 { 2 }
                    else if dx == 1 && dy == -1 { 3 } else if dx == 1 && dy == 1 { 4 } else if dx == 1 { 5 }
                    else if dy == -1 { 6 } else { 7int };
                assert(deltas@[m].0 == dx && deltas@[m].1 == dy);
            }
        }
    }

    /// The topmost object at the location with a tag of the id, for changing it; a
    /// location outside the map first gets a cell of its own with a copy of the default
    /// object.
    pub fn get_mut(&mut self, loc: Point, tag: Tid) -> (r: Option<(Oid, &mut Object)>)
        requires
            old(self).cells_exist(),
            old(self).spec_next_id() < u32::MAX,
        ensures
            final(self).cells().contains_key((loc.x, loc.y)),
            final(self).spec_player_loc() == old(self).spec_player_loc(),
            final(self).spec_npcs() == old(self).spec_npcs(),
            old(self).cells().contains_key((loc.x, loc.y)) ==> ({
                let oids = old(self).cells()[(loc.x, loc.y)];
                let i = top_with(old(self).objs(), oids, tag.0, oids.len() - 1);
                &&& final(self).cells() == old(self).cells()
                &&& match r {
                    Some((oid, obj)) => i >= 0 && oid == oids[i] && *obj == old(self).objs()[oid]
                        && final(self).entries() == old(self).entries().insert(
                        oid,
                        Entry { obj: *final(obj), loc: old(self).entries()[oid].loc },
                    ),
                    None => i < 0 && final(self).entries() == old(self).entries(),
                }
            }),
            !old(self).cells().contains_key((loc.x, loc.y)) ==> (final(self).cells()[(loc.x, loc.y)]
                == seq![Oid { value: old(self).spec_next_id() }] && (r is Some
                <==> old(self).spec_default().spec_has(tag.0))),
            old(self).cells_exist() ==> final(self).cells_exist(),
    {
        if !self.cells.contains_key(loc) {
            self.add_default(loc);
            proof {
                let x = Oid { value: old(self).spec_next_id() };
                assert(self.entries().contains_key(x));
                assert(self.objs()[x] == self.entries()[x].obj);
                assert(self.objs()[x].spec_has(tag.0) == old(self).spec_default().spec_has(tag.0));
            }
        }
        let ghost mid = *self;
        let mut found: Option<Oid> = None;
        if let Some(oids) = self.cells.get(loc) {
            let ghost l = (loc.x, loc.y);
            proof {
                assert forall|j: int| 0 <= j < oids@.len() implies self.entries().contains_key(#[trigger] oids@[j]) by {
                    if old(self).cells().contains_key(l) {
                        assert(old(self).entries().contains_key(old(self).cells()[l][j]));
                    }
                }
            }
            let mut i = oids.len();
            while i > 0
                invariant_except_break
                    found is None,
                    top_with(self.objs(), oids@, tag.0, oids@.len() - 1) == top_with(
                        self.objs(),
                        oids@,
                        tag.0,
                        i - 1,
                    ),
                invariant
                    i <= oids@.len(),
                    forall|j: int| 0 <= j < oids@.len() ==> self.entries().contains_key(#[trigger] oids@[j]),
                ensures
                    match found {
                        Some(oid) => {
                            let j = top_with(self.objs(), oids@, tag.0, oids@.len() - 1);
                            j >= 0 && oid == oids@[j] && self.entries().contains_key(oid)
                        },
                        None => top_with(self.objs(), oids@, tag.0, oids@.len() - 1) < 0,
                    },
                decreases i,
            {
                let oid = oids[i - 1];
                if self.objects.get(oid).unwrap().obj.has(tag) {
                    found = Some(oid);
                    proof {
                        lemma_top_with(self.objs(), oids@, tag.0, i - 1);
                    }
                    break;
                }
                i = i - 1;
            }
        }
        proof {
            let l = (loc.x, loc.y);
            if !old(self).cells().contains_key(l) {
                let x = Oid { value: old(self).spec_next_id() };
                let c = mid.cells()[l];
                assert(c == seq![x]);
                reveal_with_fuel(top_with, 2);
                assert(top_with(mid.objs(), c, tag.0, 0) >= 0 <==> mid.objs()[x].spec_has(tag.0));
            }
        }
        match found {
            Some(oid) => {
                let entry = self.objects.get_mut(oid);
                Some((oid, &mut entry.obj))
            },
            None => None,
        }
    }

    /// The ids at the location with the id taken out (the first time it occurs).
    pub open spec fn taken(&self, loc: Point, oid: Oid) -> Map<(i32, i32), Seq<Oid>> {
        let c = self.cells()[(loc.x, loc.y)];
        self.cells().insert((loc.x, loc.y), c.remove(index_of(c, oid, 0)))
    }

    /// Adds a new object, on top of the cell at the location or (for an item) nowhere.
    /// A character other than the player joins the NPCs; the player's location is set.
    pub fn add(&mut self, obj: Object, loc: Option<Point>) -> (oid: Oid)
        requires
            old(self).spec_next_id() < u32::MAX,
            !old(self).entries().contains_key(old(self).id_for(obj)),
            obj.spec_has(CHARACTER_ID) ==> loc is Some,
        ensures
            oid == old(self).id_for(obj),
            final(self).entries() == old(self).entries().insert(oid, Entry { obj, loc }),
            final(self).cells() == match loc {
                Some(l) => old(self).pushed(l, oid),
                None => old(self).cells(),
            },
            final(self).spec_npcs() == if obj.spec_has(CHARACTER_ID) && oid.value != 0 {
                old(self).spec_npcs().push(oid)
            } else {
                old(self).spec_npcs()
            },
            final(self).spec_player_loc() == if obj.spec_has(CHARACTER_ID) && oid.value == 0 {
                loc->0
            } else {
                old(self).spec_player_loc()
            },
            final(self).spec_next_id() == if obj.spec_has(PLAYER_ID) {
                old(self).spec_next_id()
            } else {
                (old(self).spec_next_id() + 1) as u32
            },
            final(self).spec_default() == old(self).spec_default(),
            final(self).spec_constructing() == old(self).spec_constructing(),
            old(self).cells_exist() ==> final(self).cells_exist(),
    {
        let oid = self.next_oid(&obj);
        if obj.has(Tid(CHARACTER_ID)) {
            if oid.value == 0 {
                self.player_loc = loc.unwrap();
            } else {
                self.npcs.push(oid);
                self.sorted = false;
            }
        }
        let ghost before_cells = self.cells();
        let _ = self.objects.insert(oid, Entry { obj, loc });
        if let Some(loc) = loc {
            let mut oids = match self.cells.remove(loc) {
                Some(oids) => oids,
                None => Vec::new(),
            };
            oids.push(oid);
            self.cells.insert(loc, oids);
            self.changed = loc;
            proof {
                assert(self.cells() =~= old(self).pushed(loc, oid));
            }
        }
        oid
    }

    /// Destroys the object: it leaves its cell, if it is on the map, and the NPCs, if it is
    /// one.
    /// Every place of the id on the map is its first place in the cell at the location.
    pub open spec fn only_at(&self, oid: Oid, loc: Point) -> bool {
        forall|l: (i32, i32), i: int|
            self.cells().contains_key(l) && 0 <= i < self.cells()[l].len() && #[trigger] self.cells()[l][i] == oid
                ==> l == key(loc) && i == index_of(self.cells()[l], oid, 0)
    }

    /// The id is on the map only where its entry puts it.
    pub open spec fn sole_place(&self, oid: Oid) -> bool {
        match self.entries()[oid].loc {
            Some(p) => self.only_at(oid, p),
            None => !self.on_map(oid),
        }
    }

    pub fn remove(&mut self, oid: Oid)
        requires
            old(self).entries().contains_key(oid),
            old(self).entries()[oid].loc matches Some(l) ==> old(self).cells().contains_key(
                (l.x, l.y),
            ) && index_of(old(self).cells()[(l.x, l.y)], oid, 0) >= 0,
            oid.value != 0 && old(self).entries()[oid].obj.spec_has(CHARACTER_ID) ==> index_of(
                old(self).spec_npcs(),
                oid,
                0,
            ) >= 0,
        ensures
            final(self).entries() == old(self).entries().remove(oid),
            final(self).cells() == match old(self).entries()[oid].loc {
                Some(l) => old(self).taken(l, oid),
                None => old(self).cells(),
            },
            final(self).spec_npcs() == if oid.value != 0 && old(self).entries()[oid].obj.spec_has(
                CHARACTER_ID,
            ) {
                old(self).spec_npcs().remove(index_of(old(self).spec_npcs(), oid, 0))
            } else {
                old(self).spec_npcs()
            },
            final(self).spec_player_loc() == old(self).spec_player_loc(),
            final(self).spec_next_id() == old(self).spec_next_id(),
            final(self).spec_default() == old(self).spec_default(),
            old(self).cells_exist() && old(self).sole_place(oid) ==> final(self).cells_exist(),
    {
        let entry = self.objects.get(oid).unwrap();
        let loc = entry.loc;
        let is_char = entry.obj.has(Tid(CHARACTER_ID));
        if let Some(loc) = loc {
            let mut oids = self.cells.remove(loc).unwrap();
            let index = position(&oids, oid).unwrap();
            oids.remove(index);
            self.cells.insert(loc, oids);
            self.changed = loc;
        }
        if oid.value != 0 && is_char {
            let index = position(&self.npcs, oid).unwrap();
            self.npcs.remove(index);
        }
        self.objects.remove(oid);
        proof {
            if old(self).cells_exist() && old(self).sole_place(oid) {
                assert forall|l: (i32, i32), i: int|
                    self.cells().contains_key(l) && 0 <= i < self.cells()[l].len() implies self.entries().contains_key(
                    #[trigger] self.cells()[l][i],
                ) by {
                    match old(self).entries()[oid].loc {
                        Some(p) => {
                            let c = old(self).cells()[key(p)];
                            let idx = index_of(c, oid, 0);
                            lemma_index_of(c, oid, 0);
                            if l == key(p) {
                                let j = if i >= idx { i + 1 } else { i };
                                assert(self.cells()[l][i] == c[j]);
                                assert(old(self).cells()[l][j] == c[j]);
                            } else {
                                assert(self.cells()[l][i] == old(self).cells()[l][i]);
                            }
                        },
                        None => {
                            assert(self.cells()[l][i] == old(self).cells()[l][i]);
                        },
                    }
                }
            }
        }
    }

    /// Moves an object from one cell to the top of another. Not for use while the level is
    /// being constructed.
    pub fn moved(&mut self, oid: Oid, from: Point, to: Point)
        requires
            !old(self).spec_constructing(),
            old(self).entries().contains_key(oid),
            old(self).cells().contains_key((from.x, from.y)),
            index_of(old(self).cells()[(from.x, from.y)], oid, 0) >= 0,
        ensures
            final(self).entries() == old(self).entries().insert(
                oid,
                Entry { obj: old(self).entries()[oid].obj, loc: Some(to) },
            ),
            ({
                let after = old(self).taken(from, oid);
                let c = if after.contains_key((to.x, to.y)) {
                    after[(to.x, to.y)]
                } else {
                    Seq::empty()
                };
                final(self).cells() == after.insert((to.x, to.y), c.push(oid))
            }),
            !final(self).spec_sorted(),
            final(self).spec_changed() == to,
            final(self).spec_player_loc() == if oid.value == 0 {
                to
            } else {
                old(self).spec_player_loc()
            },
            final(self).spec_npcs() == old(self).spec_npcs(),
            final(self).spec_next_id() == old(self).spec_next_id(),
            final(self).spec_default() == old(self).spec_default(),
            old(self).cells_exist() ==> final(self).cells_exist(),
    {
        let entry = self.objects.get_mut(oid);
        entry.loc = Some(to);
        let mut oids = self.cells.remove(from).unwrap();
        let index = position(&oids, oid).unwrap();
        oids.remove(index);
        self.cells.insert(from, oids);
        let ghost after = self.cells();
        let mut oids = match self.cells.remove(to) {
            Some(oids) => oids,
            None => Vec::new(),
        };
        oids.push(oid);
        self.cells.insert(to, oids);
        proof {
            let c = if after.contains_key((to.x, to.y)) { after[(to.x, to.y)] } else { Seq::<Oid>::empty() };
            assert(self.cells() =~= after.insert((to.x, to.y), c.push(oid)));
        }
        self.sorted = false;
        self.changed = to;
        if oid.value == 0 {
            self.player_loc = to;
        }
    }

    /// Replaces the object at the location with a new object (with a new id) at the same
    /// place in the cell; NPCs are kept up to date. The player cannot be replaced.
    pub fn replace(&mut self, loc: Point, old_oid: Oid, new_obj: Object) -> (new_oid: Oid)
        requires
            old(self).entries().contains_key(old_oid),
            old(self).entries()[old_oid].obj.spec_has(CHARACTER_ID) ==> old_oid.value > 1 && index_of(
                old(self).spec_npcs(),
                old_oid,
                0,
            ) >= 0,
            old(self).spec_next_id() < u32::MAX,
            new_obj.spec_has(CHARACTER_ID) ==> old(self).id_for(new_obj).value > 1,
            !old(self).entries().contains_key(old(self).id_for(new_obj)),
            old(self).id_for(new_obj) != old_oid,
            old(self).cells().contains_key((loc.x, loc.y)),
            index_of(old(self).cells()[(loc.x, loc.y)], old_oid, 0) >= 0,
        ensures
            new_oid == old(self).id_for(new_obj),
            final(self).entries() == old(self).entries().insert(
                new_oid,
                Entry { obj: new_obj, loc: Some(loc) },
            ).remove(old_oid),
            final(self).cells() == old(self).cells().insert(
                (loc.x, loc.y),
                old(self).cells()[(loc.x, loc.y)].update(
                    index_of(old(self).cells()[(loc.x, loc.y)], old_oid, 0),
                    new_oid,
                ),
            ),
            ({
                let kept = if old(self).entries()[old_oid].obj.spec_has(CHARACTER_ID) {
                    old(self).spec_npcs().remove(index_of(old(self).spec_npcs(), old_oid, 0))
                } else {
                    old(self).spec_npcs()
                };
                final(self).spec_npcs() == if new_obj.spec_has(CHARACTER_ID) {
                    kept.push(new_oid)
                } else {
                    kept
                }
            }),
            final(self).spec_changed() == loc,
            final(self).spec_player_loc() == old(self).spec_player_loc(),
            final(self).spec_default() == old(self).spec_default(),
            old(self).cells_exist() && old(self).only_at(old_oid, loc) ==> final(self).cells_exist(),
    {
        let was_char = self.objects.get(old_oid).unwrap().obj.has(Tid(CHARACTER_ID));
        if was_char {
            let index = position(&self.npcs, old_oid).unwrap();
            self.npcs.remove(index);
        }
        let new_oid = self.next_oid(&new_obj);
        if new_obj.has(Tid(CHARACTER_ID)) {
            self.npcs.push(new_oid);
            self.sorted = false;
        }
        let _ = self.objects.insert(new_oid, Entry { obj: new_obj, loc: Some(loc) });
        self.objects.remove(old_oid);
        let mut oids = self.cells.remove(loc).unwrap();
        let index = position(&oids, old_oid).unwrap();
        oids.set(index, new_oid);
        self.cells.insert(loc, oids);
        self.changed = loc;
        new_oid
    }

    /// The object leaves the map and goes into the inventory of the topmost object at the
    /// location that has one (typically the character there).
    pub fn pickup(&mut self, loc: Point, oid: Oid)
        requires
            old(self).cells_exist(),
            old(self).spec_next_id() < u32::MAX,
            old(self).entries().contains_key(oid),
            !old(self).entries()[oid].obj.spec_has(CHARACTER_ID),
            old(self).entries()[oid].loc matches Some(l) ==> old(self).cells().contains_key(
                (l.x, l.y),
            ) && index_of(old(self).cells()[(l.x, l.y)], oid, 0) >= 0,
            ({
                let cells = match old(self).entries()[oid].loc {
                    Some(l) => old(self).taken(l, oid),
                    None => old(self).cells(),
                };
                let c = cells[(loc.x, loc.y)];
                &&& cells.contains_key((loc.x, loc.y))
                &&& top_with(old(self).objs(), c, INVENTORY_ID, c.len() - 1) >= 0
                &&& object::can_take(old(self).objs()[c[top_with(old(self).objs(), c, INVENTORY_ID, c.len() - 1)]], oid)
            }),
        ensures
            final(self).entries().dom() == old(self).entries().dom(),
            final(self).entries()[oid].loc is None,
            final(self).cells() == match old(self).entries()[oid].loc {
                Some(l) => old(self).taken(l, oid),
                None => old(self).cells(),
            },
            ({
                let c = final(self).cells()[(loc.x, loc.y)];
                let holder = c[top_with(old(self).objs(), c, INVENTORY_ID, c.len() - 1)];
                object::inventory_of(final(self).objs()[holder].spec_tags()) matches Some(inv) && inv
                    == object::inventory_of(old(self).objs()[holder].spec_tags())->0.push(oid)
            }),
            final(self).spec_npcs() == old(self).spec_npcs(),
            final(self).spec_player_loc() == old(self).spec_player_loc(),
            old(self).cells_exist() ==> final(self).cells_exist(),
    {
        let ghost before = *self;
        let entry = self.objects.get_mut(oid);
        let old_loc = entry.loc;
        entry.loc = None;
        if let Some(l) = old_loc {
            let mut oids = self.cells.remove(l).unwrap();
            let index = position(&oids, oid).unwrap();
            oids.remove(index);
            self.cells.insert(l, oids);
            self.changed = l;
        }
        let ghost mid = *self;
        proof {
            assert(mid.objs() =~= before.objs().insert(oid, before.objs()[oid]));
            assert(mid.objs() =~= before.objs());
            assert forall|l: (i32, i32), i: int|
                mid.cells().contains_key(l) && 0 <= i < mid.cells()[l].len() implies mid.entries().contains_key(
                #[trigger] mid.cells()[l][i],
            ) by {
                if let Some(p) = old_loc {
                    let lp = (p.x, p.y);
                    if l == lp {
                        let c = before.cells()[lp];
                        let idx = index_of(c, oid, 0);
                        lemma_index_of(c, oid, 0);
                        let oi = if i >= idx { i + 1 } else { i };
                        assert(mid.cells()[l][i] == c[oi]);
                    }
                }
            }
        }
        let (holder, obj) = self.get_mut(loc, Tid(INVENTORY_ID)).unwrap();
        proof {
            let c = mid.cells()[(loc.x, loc.y)];
            lemma_top_with(mid.objs(), c, INVENTORY_ID, c.len() - 1);
            object::lemma_find_id(obj.spec_tags(), INVENTORY_ID, 0);
        }
        let mut inv: Vec<Oid> = Vec::new();
        let items = obj.inventory_value().unwrap();
        let mut i: usize = 0;
        while i < items.len()
            invariant
                i <= items@.len(),
                inv@ == items@.subrange(0, i as int),
            decreases items@.len() - i,
        {
            inv.push(items[i]);
            assert(items@.subrange(0, i + 1) =~= items@.subrange(0, i as int).push(items@[i as int]));
            i = i + 1;
        }
        assert(items@.subrange(0, items@.len() as int) =~= items@);
        inv.push(oid);
        let ghost before_tags = obj.spec_tags();
        let new_tag = Tag::Inventory(inv);
        proof {
            object::lemma_take_keeps_rules(before_tags, new_tag, oid);
        }
        obj.replace(new_tag);
        proof {
            let k = object::find_id(before_tags, INVENTORY_ID, 0);
            object::lemma_find_id(before_tags, INVENTORY_ID, 0);
            object::lemma_find_id(obj.spec_tags(), INVENTORY_ID, 0);
            assert(tag::tag_id(obj.spec_tags()[k]) == INVENTORY_ID);
        }
    }

    /// How far, squared, the NPC is from the player.
    pub open spec fn npc_key(&self, oid: Oid) -> int {
        spec_distance2(self.entries()[oid].loc->0, self.spec_player_loc())
    }

    /// The NPC is on the map, at a squared distance from the player that fits an `i32`.
    pub open spec fn npc_placed(&self, oid: Oid) -> bool {
        &&& self.entries().contains_key(oid)
        &&& self.entries()[oid].loc is Some
        &&& i32::MIN <= self.entries()[oid].loc->0.x - self.spec_player_loc().x <= i32::MAX
        &&& i32::MIN <= self.entries()[oid].loc->0.y - self.spec_player_loc().y <= i32::MAX
        &&& self.npc_key(oid) <= i32::MAX
    }

    /// Each NPC's squared distance from the player.
    pub open spec fn npc_keys(&self) -> spec_fn(Oid) -> int {
        |o: Oid| self.npc_key(o)
    }

    /// Every NPC is placed.
    pub open spec fn npcs_placed(&self) -> bool {
        forall|i: int| 0 <= i < self.spec_npcs().len() ==> self.npc_placed(#[trigger] self.spec_npcs()[i])
    }

    fn npc_distance(&self, oid: Oid) -> (d: i32)
        requires
            self.npc_placed(oid),
        ensures
            d == self.npc_key(oid),
    {
        let loc = self.objects.get(oid).unwrap().loc.unwrap();
        loc.distance2(&self.player_loc)
    }

    /// The NPCs, closest to the player first. They are sorted again only after something
    /// moved; the sort keeps the order of NPCs at the same distance.
    pub fn npcs(&mut self) -> (r: Vec<Oid>)
        requires
            old(self).npcs_placed(),
        ensures
            r@ == final(self).spec_npcs(),
            final(self).spec_sorted(),
            final(self).spec_npcs().to_multiset() == old(self).spec_npcs().to_multiset(),
            old(self).spec_sorted() ==> final(self).spec_npcs() == old(self).spec_npcs(),
            !old(self).spec_sorted() ==> forall|i: int, j: int|
                0 <= i < j < final(self).spec_npcs().len() ==> old(self).npc_key(
                    #[trigger] final(self).spec_npcs()[i],
                ) <= old(self).npc_key(#[trigger] final(self).spec_npcs()[j]),
            forall|k: int| #[trigger] with_key(final(self).spec_npcs(), old(self).npc_keys(), k) == with_key(
                old(self).spec_npcs(),
                old(self).npc_keys(),
                k,
            ),
            final(self).entries() == old(self).entries(),
            final(self).cells() == old(self).cells(),
            final(self).spec_player_loc() == old(self).spec_player_loc(),
    {
        if !self.sorted {
            let mut v: Vec<Oid> = self.npcs.clone();
            let ghost start = v@;
            proof {
                assert(v@ =~= self.npcs@);
                assert forall|k: int| 0 <= k < v@.len() implies self.npc_placed(#[trigger] v@[k]) by {
                    assert(self.spec_npcs()[k] == v@[k]);
                }
            }
            let n = v.len();
            // Insertion sort, which keeps the order of equal keys.
            let mut i: usize = 1;
            while i < n
                invariant
                    v@.len() == n,
                    1 <= i || n == 0,
                    v@.to_multiset() == start.to_multiset(),
                    forall|k: int| #[trigger] with_key(v@, self.npc_keys(), k) == with_key(start, self.npc_keys(), k),
                    forall|k: int| 0 <= k < n ==> self.npc_placed(#[trigger] v@[k]),
                    forall|a: int, b: int|
                        0 <= a < b < i && b < n ==> self.npc_key(#[trigger] v@[a]) <= self.npc_key(
                            #[trigger] v@[b],
                        ),
                decreases n - i,
            {
                let mut j = i;
                while j > 0 && self.npc_distance(v[j - 1]) > self.npc_distance(v[j])
                    invariant
                        v@.len() == n,
                        0 <= j <= i < n,
                        v@.to_multiset() == start.to_multiset(),
                        forall|k: int| #[trigger] with_key(v@, self.npc_keys(), k) == with_key(start, self.npc_keys(), k),
                        forall|k: int| 0 <= k < n ==> self.npc_placed(#[trigger] v@[k]),
                        forall|a: int, b: int|
                            0 <= a < b <= i && b != j && a != j ==> self.npc_key(#[trigger] v@[a])
                                <= self.npc_key(#[trigger] v@[b]),
                        forall|a: int| j < a <= i ==> self.npc_key(v@[j as int]) < self.npc_key(#[trigger] v@[a]),
                        forall|a: int| 0 <= a < j && j < i ==> self.npc_key(#[trigger] v@[a]) <= self.npc_key(v@[j + 1]),
                    decreases j,
                {
                    let ghost pre = v@;
                    let a = v[j - 1];
                    let b = v[j];
                    v.set(j - 1, b);
                    v.set(j, a);
                    proof {
                        assert(v@ =~= pre.update(j - 1, pre[j as int]).update(j as int, pre[j - 1]));
                        lemma_swap_multiset(pre, j - 1, j as int);
                        lemma_swap_keeps_key_order(pre, j - 1, self.npc_keys());
                    }
                    j = j - 1;
                }
                i = i + 1;
            }
            self.npcs = v;
            self.sorted = true;
        }
        self.npcs.clone()
    }

    /// The objects at the location, topmost first; none outside the map.
    pub fn cell_iter(&self, loc: Point) -> (r: Vec<(Oid, &Object)>)
        requires
            self.cells_exist(),
        ensures
            r@.len() == (if self.cells().contains_key((loc.x, loc.y)) { self.cells()[(loc.x, loc.y)].len() } else { 0 }),
            forall|i: int| 0 <= i < r@.len() ==> {
                let oids = self.cells()[(loc.x, loc.y)];
                &&& (#[trigger] r@[i]).0 == oids[oids.len() - 1 - i]
                &&& *r@[i].1 == self.objs()[r@[i].0]
            },
    {
        let mut r: Vec<(Oid, &Object)> = Vec::new();
        if let Some(oids) = self.cells.get(loc) {
            let ghost l = (loc.x, loc.y);
            let mut i = oids.len();
            while i > 0
                invariant
                    i <= oids@.len(),
                    oids@ == self.cells()[l],
                    l == (loc.x, loc.y),
                    self.cells().contains_key(l),
                    self.cells_exist(),
                    r@.len() == oids@.len() - i,
                    forall|j: int| 0 <= j < r@.len() ==> {
                        &&& (#[trigger] r@[j]).0 == oids@[oids@.len() - 1 - j]
                        &&& *r@[j].1 == self.objs()[r@[j].0]
                    },
                decreases i,
            {
                let oid = oids[i - 1];
                proof {
                    assert(self.entries().contains_key(self.cells()[l][i - 1]));
                }
                let entry = self.objects.get(oid).unwrap();
                r.push((oid, &entry.obj));
                i = i - 1;
            }
        }
        r
    }

    /// The objects of a cell are layered properly: a terrain object at the bottom and only
    /// there, a character only at the top, and each object exists and follows the object
    /// rules.
    pub open spec fn layered(&self, oids: Seq<Oid>) -> bool {
        &&& oids.len() > 0
        &&& forall|i: int| 0 <= i < oids.len() ==> self.entries().contains_key(#[trigger] oids[i])
        &&& forall|i: int| 0 <= i < oids.len() ==> (self.objs()[#[trigger] oids[i]].spec_has(TERRAIN_ID) <==> i == 0)
        &&& forall|i: int| 0 <= i < oids.len() - 1 ==> !self.objs()[#[trigger] oids[i]].spec_has(CHARACTER_ID)
        &&& forall|i: int| 0 <= i < oids.len() ==> self.objs()[#[trigger] oids[i]].wf()
    }

    /// Whether the cell's objects are layered properly.
    fn cell_layered(&self, oids: &Vec<Oid>) -> (ok: bool)
        ensures
            ok == self.layered(oids@),
    {
        let n = oids.len();
        if n == 0 {
            return false;
        }
        let mut i: usize = 0;
        while i < n
            invariant
                n == oids@.len(),
                0 < n,
                i <= n,
                forall|j: int| 0 <= j < i ==> self.entries().contains_key(#[trigger] oids@[j]),
                forall|j: int| 0 <= j < i ==> (self.objs()[#[trigger] oids@[j]].spec_has(TERRAIN_ID) <==> j == 0),
                forall|j: int| 0 <= j < i && j < n - 1 ==> !self.objs()[#[trigger] oids@[j]].spec_has(CHARACTER_ID),
                forall|j: int| 0 <= j < i ==> self.objs()[#[trigger] oids@[j]].wf(),
            decreases n - i,
        {
            let entry = match self.objects.get(oids[i]) {
                Some(entry) => entry,
                None => {
                    return false;
                },
            };
            let terrain = entry.obj.has(Tid(TERRAIN_ID));
            if terrain != (i == 0) {
                return false;
            }
            if i + 1 < n && entry.obj.has(Tid(CHARACTER_ID)) {
                return false;
            }
            if !entry.obj.check_invariant() {
                return false;
            }
            i = i + 1;
        }
        true
    }

    /// The topmost object of the cell with a tag of the id.
    fn get_in(&self, oids: &Vec<Oid>, tag: Tid) -> (r: Option<(Oid, &Object)>)
        requires
            forall|j: int| 0 <= j < oids@.len() ==> self.entries().contains_key(#[trigger] oids@[j]),
        ensures
            match r {
                Some((oid, obj)) => {
                    let i = top_with(self.objs(), oids@, tag.0, oids@.len() - 1);
                    i >= 0 && oid == oids@[i] && *obj == self.objs()[oid]
                },
                None => top_with(self.objs(), oids@, tag.0, oids@.len() - 1) < 0,
            },
    {
        let mut i = oids.len();
        while i > 0
            invariant
                i <= oids@.len(),
                forall|j: int| 0 <= j < oids@.len() ==> self.entries().contains_key(#[trigger] oids@[j]),
                top_with(self.objs(), oids@, tag.0, oids@.len() - 1) == top_with(self.objs(), oids@, tag.0, i - 1),
            decreases i,
        {
            let oid = oids[i - 1];
            let entry = self.objects.get(oid).unwrap();
            if entry.obj.has(tag) {
                return Some((oid, &entry.obj));
            }
            i = i - 1;
        }
        None
    }

    /// The checks of the cell at a location: it exists, it is layered properly, and a
    /// character in it is on terrain that it can be in.
    pub open spec fn cheap_checks(&self, loc: Point) -> bool {
        let oids = self.cells()[(loc.x, loc.y)];
        let c = top_with(self.objs(), oids, CHARACTER_ID, oids.len() - 1);
        let t = top_with(self.objs(), oids, TERRAIN_ID, oids.len() - 1);
        &&& self.cells().contains_key((loc.x, loc.y))
        &&& self.layered(oids)
        &&& c >= 0 ==> (t >= 0 && (object::terrain_of(self.objs()[oids[t]].spec_tags()) matches Some(tt)
            && object::impassible_text(self.objs()[oids[t]].spec_has(tag::CAN_OPEN_DOOR_ID), tt) is None))
    }

    /// Whether the checks of the cell at the location hold.
    pub fn cheap_invariants(&self, loc: Point) -> (ok: bool)
        ensures
            ok == self.cheap_checks(loc),
    {
        let oids = match self.cells.get(loc) {
            Some(oids) => oids,
            None => {
                return false;
            },
        };
        if !self.cell_layered(oids) {
            return false;
        }
        if let Some((_, ch)) = self.get_in(oids, Tid(CHARACTER_ID)) {
            match self.get_in(oids, Tid(TERRAIN_ID)) {
                Some((_, terrain)) => {
                    if terrain.terrain_value().is_none() {
                        return false;
                    }
                    if ch.impassible_terrain(terrain).is_some() {
                        return false;
                    }
                },
                None => {
                    return false;
                },
            }
        }
        true
    }

    pub closed spec fn default_ids(&self) -> Seq<Oid> {
        self.default_oids@
    }
}

impl Lookup {
    /// The inventory of the object with the id (empty if it has none).
    pub open spec fn inv(&self, k: Oid) -> Seq<Oid> {
        match object::inventory_of(self.objs()[k].spec_tags()) {
            Some(v) => v,
            None => Seq::empty(),
        }
    }

    /// No id is in two places of the map.
    pub open spec fn cells_distinct(&self) -> bool {
        forall|l1: (i32, i32), i1: int, l2: (i32, i32), i2: int|
            self.cells().contains_key(l1) && self.cells().contains_key(l2) && 0 <= i1 < self.cells()[l1].len()
                && 0 <= i2 < self.cells()[l2].len() && (l1 != l2 || i1 != i2) ==> #[trigger] self.cells()[l1][i1]
                != #[trigger] self.cells()[l2][i2]
    }

    /// The id is somewhere on the map.
    pub open spec fn on_map(&self, oid: Oid) -> bool {
        exists|l: (i32, i32), i: int|
            self.cells().contains_key(l) && 0 <= i < self.cells()[l].len() && #[trigger] self.cells()[l][i] == oid
    }

    /// The id is in the inventory of an object.
    pub open spec fn in_inventory(&self, oid: Oid) -> bool {
        exists|k: Oid, j: int|
            self.entries().contains_key(k) && 0 <= j < self.inv(k).len() && #[trigger] self.inv(k)[j] == oid
    }

    /// Every id in an inventory exists, is in no other inventory place, and is not on the
    /// map.
    pub open spec fn inventories_ok(&self) -> bool {
        &&& forall|k: Oid, j: int|
            self.entries().contains_key(k) && 0 <= j < self.inv(k).len() ==> self.entries().contains_key(
                #[trigger] self.inv(k)[j],
            )
        &&& forall|k1: Oid, j1: int, k2: Oid, j2: int|
            self.entries().contains_key(k1) && self.entries().contains_key(k2) && 0 <= j1 < self.inv(k1).len()
                && 0 <= j2 < self.inv(k2).len() && (k1 != k2 || j1 != j2) ==> #[trigger] self.inv(k1)[j1]
                != #[trigger] self.inv(k2)[j2]
        &&& forall|k: Oid, j: int|
            self.entries().contains_key(k) && 0 <= j < self.inv(k).len() ==> !self.on_map(#[trigger] self.inv(k)[j])
    }

    /// A terrain object at the bottom and only there, and a character only at the top.
    pub open spec fn stacked(&self, oids: Seq<Oid>) -> bool {
        &&& oids.len() > 0
        &&& self.objs()[oids[0]].spec_has(TERRAIN_ID)
        &&& forall|i: int| 1 <= i < oids.len() ==> !self.objs()[#[trigger] oids[i]].spec_has(TERRAIN_ID)
        &&& forall|i: int| 0 <= i < oids.len() - 1 ==> !self.objs()[#[trigger] oids[i]].spec_has(CHARACTER_ID)
    }

    /// The checks of the whole level: every id on the map exists and is in one place only,
    /// every NPC is on the map, the inventories hold existing ids that are nowhere else,
    /// every object is on the map or in an inventory, the cells are stacked properly, and
    /// every object follows the object rules.
    pub open spec fn expensive_checks(&self) -> bool {
        &&& self.cells_exist()
        &&& self.cells_distinct()
        &&& forall|i: int| 0 <= i < self.spec_npcs().len() ==> self.on_map(#[trigger] self.spec_npcs()[i])
        &&& self.inventories_ok()
        &&& forall|k: Oid| #[trigger] self.entries().contains_key(k) ==> self.on_map(k) || self.in_inventory(k)
        &&& forall|l: (i32, i32)| #[trigger] self.cells().contains_key(l) ==> self.stacked(self.cells()[l])
        &&& forall|k: Oid| #[trigger] self.entries().contains_key(k) ==> self.objs()[k].wf()
    }

    /// The id at index `i` of the cell at `locs[x]`.
    spec fn cell_id(&self, locs: Seq<Point>, x: int, i: int) -> Oid {
        self.cells()[key(locs[x])][i]
    }

    /// The places of the cells at `locs` that come before index `b` of the cell at
    /// `locs[a]`.
    spec fn in_region(&self, locs: Seq<Point>, a: int, b: int, x: int, i: int) -> bool {
        &&& 0 <= x < locs.len()
        &&& 0 <= i < self.cells()[key(locs[x])].len()
        &&& (x < a || (x == a && i < b))
    }

    /// Puts the ids of the map in the set, as long as each exists and none is met twice.
    fn gather_cells(&self, set: &mut IdSet) -> (ok: bool)
        requires
            ids_of(*old(set)) == Set::<Oid>::empty(),
        ensures
            ok == (self.cells_exist() && self.cells_distinct()),
            ok ==> forall|o: Oid| ids_of(*final(set)).contains(o) <==> self.on_map(o),
            ids_of(*final(set)).finite(),
    {
        let locs = self.cells.locs();
        let ghost ls = locs@;
        let mut a: usize = 0;
        proof {
            assert(ids_of(*set) =~= Set::<Oid>::empty());
        }
        while a < locs.len()
            invariant
                ls == locs@,
                a <= ls.len(),
                forall|i: int| 0 <= i < ls.len() ==> self.cells().contains_key(key(#[trigger] ls[i])),
                ls.no_duplicates(),
                ids_of(*set).finite(),
                forall|x: int, i: int|
                    self.in_region(ls, a as int, 0, x, i) ==> self.entries().contains_key(
                        #[trigger] self.cell_id(ls, x, i),
                    ),
                forall|x1: int, i1: int, x2: int, i2: int|
                    self.in_region(ls, a as int, 0, x1, i1) && self.in_region(ls, a as int, 0, x2, i2) && (x1
                        != x2 || i1 != i2) ==> #[trigger] self.cell_id(ls, x1, i1) != #[trigger] self.cell_id(
                        ls,
                        x2,
                        i2,
                    ),
                forall|o: Oid|
                    ids_of(*set).contains(o) <==> exists|x: int, i: int|
                        self.in_region(ls, a as int, 0, x, i) && #[trigger] self.cell_id(ls, x, i) == o,
            decreases ls.len() - a,
        {
            let oids = self.cells.get(locs[a]).unwrap();
            let mut b: usize = 0;
            while b < oids.len()
                invariant
                    ls == locs@,
                    a < ls.len(),
                    oids@ == self.cells()[key(ls[a as int])],
                    b <= oids@.len(),
                    forall|i: int| 0 <= i < ls.len() ==> self.cells().contains_key(key(#[trigger] ls[i])),
                    ls.no_duplicates(),
                    ids_of(*set).finite(),
                    forall|x: int, i: int|
                        self.in_region(ls, a as int, b as int, x, i) ==> self.entries().contains_key(
                            #[trigger] self.cell_id(ls, x, i),
                        ),
                    forall|x1: int, i1: int, x2: int, i2: int|
                        self.in_region(ls, a as int, b as int, x1, i1) && self.in_region(ls, a as int, b as int, x2, i2)
                            && (x1 != x2 || i1 != i2) ==> #[trigger] self.cell_id(ls, x1, i1)
                            != #[trigger] self.cell_id(ls, x2, i2),
                    forall|o: Oid|
                        ids_of(*set).contains(o) <==> exists|x: int, i: int|
                            self.in_region(ls, a as int, b as int, x, i) && #[trigger] self.cell_id(ls, x, i) == o,
                decreases oids@.len() - b,
            {
                let o = oids[b];
                let ghost here = self.cell_id(ls, a as int, b as int);
                assert(here == o);
                if !self.objects.contains_key(o) {
                    proof {
                        assert(self.cells().contains_key(key(ls[a as int])));
                        assert(!self.entries().contains_key(self.cells()[key(ls[a as int])][b as int]));
                    }
                    return false;
                }
                let ghost before = ids_of(*set);
                if !set.insert(o) {
                    proof {
                        let (x, i) = choose|x: int, i: int|
                            self.in_region(ls, a as int, b as int, x, i) && #[trigger] self.cell_id(ls, x, i) == o;
                        assert(self.in_region(ls, a as int, b as int, x, i));
                        if x != a {
                            assert(ls[x] != ls[a as int]);
                            assert(key(ls[x]) != key(ls[a as int]));
                        }
                        assert(self.cells().contains_key(key(ls[x])));
                        assert(self.cells()[key(ls[x])][i] == self.cells()[key(ls[a as int])][b as int]);
                    }
                    return false;
                }
                proof {
                    assert forall|x: int, i: int|
                        self.in_region(ls, a as int, b + 1, x, i) implies self.entries().contains_key(
                        #[trigger] self.cell_id(ls, x, i),
                    ) by {
                        if !(x == a && i == b) {
                            assert(self.in_region(ls, a as int, b as int, x, i));
                        }
                    }
                    assert forall|x1: int, i1: int, x2: int, i2: int|
                        self.in_region(ls, a as int, b + 1, x1, i1) && self.in_region(ls, a as int, b + 1, x2, i2)
                            && (x1 != x2 || i1 != i2) implies #[trigger] self.cell_id(ls, x1, i1)
                        != #[trigger] self.cell_id(ls, x2, i2) by {
                        if x1 == a && i1 == b {
                            assert(self.in_region(ls, a as int, b as int, x2, i2));
                            assert(before.contains(self.cell_id(ls, x2, i2)));
                        } else if x2 == a && i2 == b {
                            assert(self.in_region(ls, a as int, b as int, x1, i1));
                            assert(before.contains(self.cell_id(ls, x1, i1)));
                        } else {
                            assert(self.in_region(ls, a as int, b as int, x1, i1));
                            assert(self.in_region(ls, a as int, b as int, x2, i2));
                        }
                    }
                    assert forall|o2: Oid|
                        ids_of(*set).contains(o2) <==> exists|x: int, i: int|
                            self.in_region(ls, a as int, b + 1, x, i) && #[trigger] self.cell_id(ls, x, i) == o2 by {
                        if ids_of(*set).contains(o2) {
                            if o2 == o {
                                assert(self.in_region(ls, a as int, b + 1, a as int, b as int));
                            } else {
                                assert(before.contains(o2));
                                let (x, i) = choose|x: int, i: int|
                                    self.in_region(ls, a as int, b as int, x, i) && #[trigger] self.cell_id(ls, x, i) == o2;
                                assert(self.in_region(ls, a as int, b + 1, x, i));
                            }
                        }
                        if exists|x: int, i: int|
                            self.in_region(ls, a as int, b + 1, x, i) && #[trigger] self.cell_id(ls, x, i) == o2 {
                            let (x, i) = choose|x: int, i: int|
                                self.in_region(ls, a as int, b + 1, x, i) && #[trigger] self.cell_id(ls, x, i) == o2;
                            if !(x == a && i == b) {
                                assert(self.in_region(ls, a as int, b as int, x, i));
                            }
                        }
                    }
                }
                b = b + 1;
            }
            proof {
                assert forall|x: int, i: int|
                    #![trigger self.in_region(ls, a as int, b as int, x, i)]
                    #![trigger self.in_region(ls, a + 1, 0, x, i)]
                    self.in_region(ls, a as int, b as int, x, i) == self.in_region(ls, a + 1, 0, x, i) by {}
            }
            a = a + 1;
        }
        proof {
            assert forall|x: int, i: int|
                #![trigger self.in_region(ls, a as int, 0, x, i)]
                0 <= x < ls.len() && 0 <= i < self.cells()[key(ls[x])].len() implies self.in_region(
                ls,
                a as int,
                0,
                x,
                i,
            ) by {}
            assert forall|l: (i32, i32), i: int|
                self.cells().contains_key(l) && 0 <= i < self.cells()[l].len() implies self.entries().contains_key(
                #[trigger] self.cells()[l][i],
            ) by {
                let x = choose|x: int| 0 <= x < ls.len() && (#[trigger] ls[x]).x == l.0 && ls[x].y == l.1;
                assert(key(ls[x]) == l);
                assert(self.in_region(ls, a as int, 0, x, i));
                assert(self.cell_id(ls, x, i) == self.cells()[l][i]);
            }
            assert forall|l1: (i32, i32), i1: int, l2: (i32, i32), i2: int|
                self.cells().contains_key(l1) && self.cells().contains_key(l2) && 0 <= i1 < self.cells()[l1].len()
                    && 0 <= i2 < self.cells()[l2].len() && (l1 != l2 || i1 != i2) implies #[trigger] self.cells()[l1][i1]
                != #[trigger] self.cells()[l2][i2] by {
                let x1 = choose|x: int| 0 <= x < ls.len() && (#[trigger] ls[x]).x == l1.0 && ls[x].y == l1.1;
                let x2 = choose|x: int| 0 <= x < ls.len() && (#[trigger] ls[x]).x == l2.0 && ls[x].y == l2.1;
                assert(key(ls[x1]) == l1);
                assert(key(ls[x2]) == l2);
                assert(self.in_region(ls, a as int, 0, x1, i1));
                assert(self.in_region(ls, a as int, 0, x2, i2));
                assert(self.cell_id(ls, x1, i1) == self.cells()[l1][i1]);
                assert(self.cell_id(ls, x2, i2) == self.cells()[l2][i2]);
            }
            assert forall|o: Oid| ids_of(*set).contains(o) <==> self.on_map(o) by {
                if ids_of(*set).contains(o) {
                    let (x, i) = choose|x: int, i: int|
                        self.in_region(ls, a as int, 0, x, i) && #[trigger] self.cell_id(ls, x, i) == o;
                    assert(self.cells().contains_key(key(ls[x])));
                    assert(self.cells()[key(ls[x])][i] == o);
                }
                if self.on_map(o) {
                    let (l, i) = choose|l: (i32, i32), i: int|
                        self.cells().contains_key(l) && 0 <= i < self.cells()[l].len() && #[trigger] self.cells()[l][i] == o;
                    let x = choose|x: int| 0 <= x < ls.len() && (#[trigger] ls[x]).x == l.0 && ls[x].y == l.1;
                    assert(key(ls[x]) == l);
                    assert(self.in_region(ls, a as int, 0, x, i));
                    assert(self.cell_id(ls, x, i) == o);
                }
            }
        }
        true
    }

    /// The id at index `j` of the inventory of `ids[x]`.
    spec fn inv_id(&self, ids: Seq<Oid>, x: int, j: int) -> Oid {
        self.inv(ids[x])[j]
    }

    /// The places of the inventories of `ids` that come before index `b` of the inventory
    /// of `ids[a]`.
    spec fn in_inv_region(&self, ids: Seq<Oid>, a: int, b: int, x: int, j: int) -> bool {
        &&& 0 <= x < ids.len()
        &&& 0 <= j < self.inv(ids[x]).len()
        &&& (x < a || (x == a && j < b))
    }

    /// Adds the ids in the inventories to the set of the ids on the map, as long as each
    /// exists and none is met twice.
    fn gather_inventories(&self, set: &mut IdSet) -> (ok: bool)
        requires
            forall|o: Oid| ids_of(*old(set)).contains(o) <==> self.on_map(o),
            ids_of(*old(set)).finite(),
        ensures
            ok == self.inventories_ok(),
            ok ==> forall|o: Oid| ids_of(*final(set)).contains(o) <==> (self.on_map(o) || self.in_inventory(o)),
            ids_of(*final(set)).finite(),
    {
        let ids = self.objects.ids();
        let ghost ks = ids@;
        let mut a: usize = 0;
        while a < ids.len()
            invariant
                ks == ids@,
                a <= ks.len(),
                forall|k: Oid| self.entries().contains_key(k) <==> ks.contains(k),
                ks.no_duplicates(),
                ids_of(*set).finite(),
                forall|x: int, j: int|
                    self.in_inv_region(ks, a as int, 0, x, j) ==> self.entries().contains_key(
                        #[trigger] self.inv_id(ks, x, j),
                    ),
                forall|x: int, j: int|
                    self.in_inv_region(ks, a as int, 0, x, j) ==> !self.on_map(#[trigger] self.inv_id(ks, x, j)),
                forall|x1: int, j1: int, x2: int, j2: int|
                    self.in_inv_region(ks, a as int, 0, x1, j1) && self.in_inv_region(ks, a as int, 0, x2, j2) && (x1
                        != x2 || j1 != j2) ==> #[trigger] self.inv_id(ks, x1, j1) != #[trigger] self.inv_id(ks, x2, j2),
                forall|o: Oid|
                    ids_of(*set).contains(o) <==> (self.on_map(o) || exists|x: int, j: int|
                        self.in_inv_region(ks, a as int, 0, x, j) && #[trigger] self.inv_id(ks, x, j) == o),
            decreases ks.len() - a,
        {
            let k = ids[a];
            proof {
                assert(ks.contains(k));
            }
            let entry = self.objects.get(k).unwrap();
            if let Some(items) = entry.obj.inventory_value() {
                proof {
                    assert(items@ == self.inv(k));
                }
                let mut b: usize = 0;
                while b < items.len()
                    invariant
                        ks == ids@,
                        a < ks.len(),
                        k == ks[a as int],
                        forall|k2: Oid| self.entries().contains_key(k2) <==> ks.contains(k2),
                        items@ == self.inv(k),
                        b <= items@.len(),
                        ks.no_duplicates(),
                        ids_of(*set).finite(),
                        forall|x: int, j: int|
                            self.in_inv_region(ks, a as int, b as int, x, j) ==> self.entries().contains_key(
                                #[trigger] self.inv_id(ks, x, j),
                            ),
                        forall|x: int, j: int|
                            self.in_inv_region(ks, a as int, b as int, x, j) ==> !self.on_map(
                                #[trigger] self.inv_id(ks, x, j),
                            ),
                        forall|x1: int, j1: int, x2: int, j2: int|
                            self.in_inv_region(ks, a as int, b as int, x1, j1) && self.in_inv_region(
                                ks,
                                a as int,
                                b as int,
                                x2,
                                j2,
                            ) && (x1 != x2 || j1 != j2) ==> #[trigger] self.inv_id(ks, x1, j1) != #[trigger] self.inv_id(
                                ks,
                                x2,
                                j2,
                            ),
                        forall|o: Oid|
                            ids_of(*set).contains(o) <==> (self.on_map(o) || exists|x: int, j: int|
                                self.in_inv_region(ks, a as int, b as int, x, j) && #[trigger] self.inv_id(ks, x, j)
                                    == o),
                    decreases items@.len() - b,
                {
                    let o = items[b];
                    assert(self.inv_id(ks, a as int, b as int) == o);
                    let ghost before = ids_of(*set);
                    if !set.insert(o) {
                        proof {
                            assert(ks.contains(k));
                            assert(self.entries().contains_key(k));
                            if !self.on_map(o) {
                                let (x, j) = choose|x: int, j: int|
                                    self.in_inv_region(ks, a as int, b as int, x, j) && #[trigger] self.inv_id(ks, x, j)
                                        == o;
                                if x != a {
                                    assert(ks[x] != ks[a as int]);
                                }
                                assert(ks.contains(ks[x]));
                                assert(self.entries().contains_key(ks[x]));
                                assert(self.inv(ks[x])[j] == self.inv(k)[b as int]);
                            }
                        }
                        return false;
                    }
                    if !self.objects.contains_key(o) {
                        proof {
                            assert(ks.contains(k));
                            assert(self.entries().contains_key(k));
                            assert(!self.entries().contains_key(self.inv(k)[b as int]));
                        }
                        return false;
                    }
                    proof {
                        assert(!before.contains(o));
                        assert(!self.on_map(o));
                        assert forall|x: int, j: int|
                            self.in_inv_region(ks, a as int, b + 1, x, j) implies self.entries().contains_key(
                            #[trigger] self.inv_id(ks, x, j),
                        ) && !self.on_map(self.inv_id(ks, x, j)) by {
                            if !(x == a && j == b) {
                                assert(self.in_inv_region(ks, a as int, b as int, x, j));
                            }
                        }
                        assert forall|x1: int, j1: int, x2: int, j2: int|
                            self.in_inv_region(ks, a as int, b + 1, x1, j1) && self.in_inv_region(
                                ks,
                                a as int,
                                b + 1,
                                x2,
                                j2,
                            ) && (x1 != x2 || j1 != j2) implies #[trigger] self.inv_id(ks, x1, j1)
                            != #[trigger] self.inv_id(ks, x2, j2) by {
                            if x1 == a && j1 == b {
                                assert(self.in_inv_region(ks, a as int, b as int, x2, j2));
                                assert(before.contains(self.inv_id(ks, x2, j2)));
                            } else if x2 == a && j2 == b {
                                assert(self.in_inv_region(ks, a as int, b as int, x1, j1));
                                assert(before.contains(self.inv_id(ks, x1, j1)));
                            } else {
                                assert(self.in_inv_region(ks, a as int, b as int, x1, j1));
                                assert(self.in_inv_region(ks, a as int, b as int, x2, j2));
                            }
                        }
                        assert forall|o2: Oid|
                            ids_of(*set).contains(o2) <==> (self.on_map(o2) || exists|x: int, j: int|
                                self.in_inv_region(ks, a as int, b + 1, x, j) && #[trigger] self.inv_id(ks, x, j)
                                    == o2) by {
                            if ids_of(*set).contains(o2) && !self.on_map(o2) {
                                if o2 == o {
                                    assert(self.in_inv_region(ks, a as int, b + 1, a as int, b as int));
                                } else {
                                    assert(before.contains(o2));
                                    let (x, j) = choose|x: int, j: int|
                                        self.in_inv_region(ks, a as int, b as int, x, j) && #[trigger] self.inv_id(
                                            ks,
                                            x,
                                            j,
                                        ) == o2;
                                    assert(self.in_inv_region(ks, a as int, b + 1, x, j));
                                }
                            }
                            if exists|x: int, j: int|
                                self.in_inv_region(ks, a as int, b + 1, x, j) && #[trigger] self.inv_id(ks, x, j)
                                    == o2 {
                                let (x, j) = choose|x: int, j: int|
                                    self.in_inv_region(ks, a as int, b + 1, x, j) && #[trigger] self.inv_id(ks, x, j)
                                        == o2;
                                if !(x == a && j == b) {
                                    assert(self.in_inv_region(ks, a as int, b as int, x, j));
                                }
                            }
                        }
                    }
                    b = b + 1;
                }
                proof {
                    assert forall|x: int, j: int|
                        #![trigger self.in_inv_region(ks, a as int, b as int, x, j)]
                        #![trigger self.in_inv_region(ks, a + 1, 0, x, j)]
                        self.in_inv_region(ks, a as int, b as int, x, j) == self.in_inv_region(ks, a + 1, 0, x, j) by {}
                }
            } else {
                proof {
                    assert(self.inv(k).len() == 0);
                    assert forall|x: int, j: int|
                        #![trigger self.in_inv_region(ks, a as int, 0, x, j)]
                        #![trigger self.in_inv_region(ks, a + 1, 0, x, j)]
                        self.in_inv_region(ks, a as int, 0, x, j) == self.in_inv_region(ks, a + 1, 0, x, j) by {}
                }
            }
            a = a + 1;
        }
        proof {
            assert forall|k: Oid, j: int|
                self.entries().contains_key(k) && 0 <= j < self.inv(k).len() implies #[trigger] self.inv(k)[j]
                == self.inv_id(ks, ks.index_of(k), j) && self.in_inv_region(ks, a as int, 0, ks.index_of(k), j) by {
                assert(ks.contains(k));
            }
            assert forall|k1: Oid, j1: int, k2: Oid, j2: int|
                self.entries().contains_key(k1) && self.entries().contains_key(k2) && 0 <= j1 < self.inv(k1).len()
                    && 0 <= j2 < self.inv(k2).len() && (k1 != k2 || j1 != j2) implies #[trigger] self.inv(k1)[j1]
                != #[trigger] self.inv(k2)[j2] by {
                assert(ks.contains(k1));
                assert(ks.contains(k2));
                let x1 = ks.index_of(k1);
                let x2 = ks.index_of(k2);
                assert(self.in_inv_region(ks, a as int, 0, x1, j1));
                assert(self.in_inv_region(ks, a as int, 0, x2, j2));
                assert(self.inv_id(ks, x1, j1) == self.inv(k1)[j1]);
                assert(self.inv_id(ks, x2, j2) == self.inv(k2)[j2]);
            }
            assert forall|o: Oid|
                ids_of(*set).contains(o) <==> (self.on_map(o) || self.in_inventory(o)) by {
                if ids_of(*set).contains(o) && !self.on_map(o) {
                    let (x, j) = choose|x: int, j: int|
                        self.in_inv_region(ks, a as int, 0, x, j) && #[trigger] self.inv_id(ks, x, j) == o;
                    assert(ks.contains(ks[x]));
                    assert(self.entries().contains_key(ks[x]));
                    assert(self.inv(ks[x])[j] == o);
                }
                if self.in_inventory(o) {
                    let (k, j) = choose|k: Oid, j: int|
                        self.entries().contains_key(k) && 0 <= j < self.inv(k).len() && #[trigger] self.inv(k)[j] == o;
                    assert(self.inv(k)[j] == self.inv_id(ks, ks.index_of(k), j));
                }
            }
        }
        true
    }

    /// Whether the cell is stacked properly.
    fn cell_stacked(&self, oids: &Vec<Oid>) -> (ok: bool)
        requires
            forall|i: int| 0 <= i < oids@.len() ==> self.entries().contains_key(#[trigger] oids@[i]),
        ensures
            ok == self.stacked(oids@),
    {
        let n = oids.len();
        if n == 0 {
            return false;
        }
        if !self.objects.get(oids[0]).unwrap().obj.has(Tid(TERRAIN_ID)) {
            return false;
        }
        let mut i: usize = 0;
        while i < n
            invariant
                n == oids@.len(),
                0 < n,
                i <= n,
                forall|j: int| 0 <= j < oids@.len() ==> self.entries().contains_key(#[trigger] oids@[j]),
                forall|j: int| 1 <= j < i ==> !self.objs()[#[trigger] oids@[j]].spec_has(TERRAIN_ID),
                forall|j: int| 0 <= j < i && j < n - 1 ==> !self.objs()[#[trigger] oids@[j]].spec_has(CHARACTER_ID),
            decreases n - i,
        {
            let obj = &self.objects.get(oids[i]).unwrap().obj;
            if i > 0 && obj.has(Tid(TERRAIN_ID)) {
                return false;
            }
            // The first character must be the top object.
            if i + 1 < n && obj.has(Tid(CHARACTER_ID)) {
                return false;
            }
            i = i + 1;
        }
        true
    }

    /// Whether the checks of the whole level hold.
    pub fn expensive_invariants(&self) -> (ok: bool)
        ensures
            ok == self.expensive_checks(),
    {
        let mut set = IdSet::new();
        if !self.gather_cells(&mut set) {
            return false;
        }
        let mut i: usize = 0;
        while i < self.npcs.len()
            invariant
                i <= self.npcs@.len(),
                forall|o: Oid| ids_of(set).contains(o) <==> self.on_map(o),
                forall|j: int| 0 <= j < i ==> self.on_map(#[trigger] self.spec_npcs()[j]),
            decreases self.npcs@.len() - i,
        {
            if !set.contains(self.npcs[i]) {
                proof {
                    assert(!self.on_map(self.spec_npcs()[i as int]));
                }
                return false;
            }
            i = i + 1;
        }
        if !self.gather_inventories(&mut set) {
            return false;
        }
        let ids = self.objects.ids();
        let ghost ks = ids@;
        proof {
            let u = ids_of(set);
            let d = self.entries().dom();
            assert(d =~= ks.to_set());
            vstd::seq_lib::seq_to_set_is_finite(ks);
            assert(u.subset_of(d)) by {
                assert forall|o: Oid| u.contains(o) implies d.contains(o) by {
                    if self.in_inventory(o) {
                        let (k, j) = choose|k: Oid, j: int|
                            self.entries().contains_key(k) && 0 <= j < self.inv(k).len() && #[trigger] self.inv(k)[j] == o;
                    } else {
                        let (l, j) = choose|l: (i32, i32), j: int|
                            self.cells().contains_key(l) && 0 <= j < self.cells()[l].len() && #[trigger] self.cells()[l][j] == o;
                    }
                }
            }
        }
        if set.len() != self.objects.len() {
            proof {
                if forall|k: Oid| #[trigger] self.entries().contains_key(k) ==> self.on_map(k) || self.in_inventory(k) {
                    assert(ids_of(set) =~= self.entries().dom());
                }
            }
            return false;
        }
        proof {
            vstd::set_lib::lemma_subset_equality(ids_of(set), self.entries().dom());
            assert forall|k: Oid| #[trigger] self.entries().contains_key(k) implies self.on_map(k) || self.in_inventory(k) by {
                assert(ids_of(set).contains(k));
            }
        }
        let locs = self.cells.locs();
        let ghost ls = locs@;
        let mut a: usize = 0;
        while a < locs.len()
            invariant
                ls == locs@,
                a <= ls.len(),
                self.cells_exist(),
                forall|x: int| 0 <= x < ls.len() ==> self.cells().contains_key(key(#[trigger] ls[x])),
                forall|x: int| 0 <= x < a ==> self.stacked(self.cells()[key(#[trigger] ls[x])]),
            decreases ls.len() - a,
        {
            let oids = self.cells.get(locs[a]).unwrap();
            proof {
                assert(self.cells().contains_key(key(ls[a as int])));
                assert forall|j: int| 0 <= j < oids@.len() implies self.entries().contains_key(#[trigger] oids@[j]) by {
                    assert(self.entries().contains_key(self.cells()[key(ls[a as int])][j]));
                }
            }
            if !self.cell_stacked(oids) {
                return false;
            }
            a = a + 1;
        }
        proof {
            assert forall|l: (i32, i32)| #[trigger] self.cells().contains_key(l) implies self.stacked(self.cells()[l]) by {
                let x = choose|x: int| 0 <= x < ls.len() && (#[trigger] ls[x]).x == l.0 && ls[x].y == l.1;
                assert(key(ls[x]) == l);
            }
        }
        let mut a: usize = 0;
        while a < ids.len()
            invariant
                ks == ids@,
                a <= ks.len(),
                forall|k: Oid| self.entries().contains_key(k) <==> ks.contains(k),
                forall|x: int| 0 <= x < a ==> self.objs()[#[trigger] ks[x]].wf(),
            decreases ks.len() - a,
        {
            proof {
                assert(ks.contains(ks[a as int]));
            }
            if !self.objects.get(ids[a]).unwrap().obj.check_invariant() {
                return false;
            }
            a = a + 1;
        }
        proof {
            assert forall|k: Oid| #[trigger] self.entries().contains_key(k) implies self.objs()[k].wf() by {
                assert(ks.contains(k));
                let x = ks.index_of(k);
                assert(self.objs()[ks[x]].wf());
            }
        }
        true
    }

    /// The checks made after each change once the level is built: the player is id 0 and
    /// stands in its cell, id 1 (the default object) and the next id are free, the cell
    /// last changed passes its checks, and, with the expensive checks enabled, the whole
    /// level passes them.
    pub open spec fn checks(&self) -> bool {
        let pl = key(self.spec_player_loc());
        self.spec_constructing() || {
            &&& self.entries().contains_key(Oid { value: 0 })
            &&& self.objs()[Oid { value: 0 }].spec_has(PLAYER_ID)
            &&& !self.entries().contains_key(Oid { value: 1 })
            &&& !self.entries().contains_key(Oid { value: self.spec_next_id() })
            &&& self.cells().contains_key(pl)
            &&& exists|i: int|
                0 <= i < self.cells()[pl].len() && self.objs()[#[trigger] self.cells()[pl][i]].spec_has(PLAYER_ID)
            &&& self.cheap_checks(self.spec_changed())
            &&& self.spec_invariants() ==> self.expensive_checks()
        }
    }

    /// Whether the checks made after each change hold.
    pub fn check_invariant(&self) -> (ok: bool)
        requires
            self.cells_exist(),
        ensures
            ok == self.checks(),
    {
        if self.constructing {
            return true;
        }
        match self.objects.get(Oid::without_tag(0)) {
            Some(entry) => {
                if !entry.obj.has(Tid(PLAYER_ID)) {
                    return false;
                }
            },
            None => {
                return false;
            },
        }
        if self.objects.contains_key(Oid::without_tag(1)) {
            return false;
        }
        if self.objects.contains_key(Oid::without_tag(self.next_id)) {
            return false;
        }
        let oids = match self.cells.get(self.player_loc) {
            Some(oids) => oids,
            None => {
                return false;
            },
        };
        let ghost pl = key(self.player_loc);
        let mut found = false;
        let mut i: usize = 0;
        while i < oids.len()
            invariant
                oids@ == self.cells()[pl],
                self.cells().contains_key(pl),
                self.cells_exist(),
                i <= oids@.len(),
                found <==> exists|j: int| 0 <= j < i && self.objs()[#[trigger] oids@[j]].spec_has(PLAYER_ID),
            decreases oids@.len() - i,
        {
            proof {
                assert(self.entries().contains_key(self.cells()[pl][i as int]));
            }
            if self.objects.get(oids[i]).unwrap().obj.has(Tid(PLAYER_ID)) {
                found = true;
            }
            i = i + 1;
        }
        if !found {
            return false;
        }
        proof {
            let j = choose|j: int| 0 <= j < i && self.objs()[#[trigger] oids@[j]].spec_has(PLAYER_ID);
            assert(self.cells()[pl][j] == oids@[j]);
            assert(self.entries().contains_key(Oid { value: 0 }));
            assert(self.objs()[Oid { value: 0 }].spec_has(PLAYER_ID));
            assert(!self.entries().contains_key(Oid { value: 1 }));
            assert(!self.entries().contains_key(Oid { value: self.spec_next_id() }));
            assert(self.cells().contains_key(key(self.spec_player_loc())));
        }
        if !self.cheap_invariants(self.changed) {
            return false;
        }
        if self.invariants {
            self.expensive_invariants()
        } else {
            true
        }
    }
}

} // verus!
