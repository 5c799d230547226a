//! The normalized data of a level: every object by id, and the objects at each location of
//! the map. Within a cell the character, if there is one, comes first and the terrain
//! last. Locations outside the map share a default cell.
use crate::id_set::{ids_of, loc_ids_of, IdSet, LocIds};
use crate::object::{self, Object};
use crate::oid::Oid;
use crate::point::Point;
use crate::tag::{self, Tag, Tid, CHARACTER_ID, PLAYER_ID, PORTABLE_ID, TERRAIN_ID};
use fnv::FnvHashMap;
use vstd::prelude::*;

verus! {

// ---------------------------------------------------------------------------------------
// The two maps.

/// Every object by id, in a hash map with the FNV hasher. The map is held privately so
/// that the wrappers below are the only access to it: vstd's `HashMap` contracts hold only
/// for hashers that it knows to be deterministic, and the FNV hasher is not among them.
#[verifier::external_body]
pub struct ObjectMap {
    map: FnvHashMap<Oid, Object>,
}

/// What the map holds: each object by its id.
pub uninterp spec fn objects_of(m: ObjectMap) -> Map<Oid, Object>;

impl ObjectMap {
    /// Calls `FnvHashMap::default`. Trusted: the map starts empty.
    #[verifier::external_body]
    fn new() -> (m: ObjectMap)
        ensures
            objects_of(m).is_empty(),
    {
        ObjectMap { map: FnvHashMap::default() }
    }

    /// Calls `HashMap::get`. Trusted: the object with the id, if there is one.
    #[verifier::external_body]
    fn get(&self, oid: Oid) -> (r: Option<&Object>)
        ensures
            match r {
                Some(obj) => objects_of(*self).contains_key(oid) && *obj == objects_of(*self)[oid],
                None => !objects_of(*self).contains_key(oid),
            },
    {
        self.map.get(&oid)
    }

    /// Calls `HashMap::get_mut` on an id that has an object. Trusted: the object, which
    /// the map then holds as the caller leaves it.
    #[verifier::external_body]
    fn get_mut(&mut self, oid: Oid) -> (r: &mut Object)
        requires
            objects_of(*old(self)).contains_key(oid),
        ensures
            *r == objects_of(*old(self))[oid],
            objects_of(*final(self)) == objects_of(*old(self)).insert(oid, *final(r)),
    {
        self.map.get_mut(&oid).unwrap()
    }

    /// Calls `HashMap::contains_key`. Trusted: whether there is an object with the id.
    #[verifier::external_body]
    fn contains_key(&self, oid: Oid) -> (r: bool)
        ensures
            r == objects_of(*self).contains_key(oid),
    {
        self.map.contains_key(&oid)
    }

    /// Calls `HashMap::len`. Trusted: the number of objects.
    #[verifier::external_body]
    fn len(&self) -> (n: usize)
        ensures
            n == objects_of(*self).dom().len(),
    {
        self.map.len()
    }

    /// Calls `HashMap::keys`. Trusted: each id with an object, once, in the order that the
    /// map walks them (which nothing here states).
    #[verifier::external_body]
    fn ids(&self) -> (r: Vec<Oid>)
        ensures
            forall|k: Oid| objects_of(*self).contains_key(k) <==> r@.contains(k),
            r@.no_duplicates(),
    {
        self.map.keys().copied().collect()
    }

    /// Calls `HashMap::insert`. Trusted: the id now has the object, and the object it had,
    /// if any, is returned.
    #[verifier::external_body]
    fn insert(&mut self, oid: Oid, obj: Object) -> (old_obj: Option<Object>)
        ensures
            objects_of(*final(self)) == objects_of(*old(self)).insert(oid, obj),
            match old_obj {
                Some(o) => objects_of(*old(self)).contains_key(oid) && o == objects_of(
                    *old(self),
                )[oid],
                None => !objects_of(*old(self)).contains_key(oid),
            },
    {
        self.map.insert(oid, obj)
    }

    /// Calls `HashMap::remove`. Trusted: the id has no object afterwards, and the object it
    /// had, if any, is returned.
    #[verifier::external_body]
    fn remove(&mut self, oid: Oid) -> (old_obj: Option<Object>)
        ensures
            objects_of(*final(self)) == objects_of(*old(self)).remove(oid),
            match old_obj {
                Some(o) => objects_of(*old(self)).contains_key(oid) && o == objects_of(
                    *old(self),
                )[oid],
                None => !objects_of(*old(self)).contains_key(oid),
            },
    {
        self.map.remove(&oid)
    }
}

/// The cell map's key for a location.
pub open spec fn key(p: Point) -> (i32, i32) {
    (p.x, p.y)
}

/// The objects at each location of the map, in a hash map with the FNV hasher. The map is
/// held privately so that the wrappers below are the only access to it: vstd's `HashMap`
/// contracts hold only for hashers that it knows to be deterministic, and the FNV hasher
/// is not among them.
#[verifier::external_body]
pub struct CellMap {
    map: FnvHashMap<Point, Vec<Oid>>,
}

/// What the map holds: the ids of the objects at each (x, y), bottom of the list first.
pub uninterp spec fn cells_of(m: CellMap) -> Map<(i32, i32), Seq<Oid>>;

impl CellMap {
    /// Calls `FnvHashMap::default`. Trusted: the map starts empty.
    #[verifier::external_body]
    pub(crate) fn new() -> (m: CellMap)
        ensures
            cells_of(m).is_empty(),
    {
        CellMap { map: FnvHashMap::default() }
    }

    /// Calls `HashMap::get`. Trusted: the ids at the location, if it is a cell.
    #[verifier::external_body]
    pub(crate) fn get(&self, loc: Point) -> (r: Option<&Vec<Oid>>)
        ensures
            match r {
                Some(oids) => cells_of(*self).contains_key((loc.x, loc.y)) && oids@ == cells_of(
                    *self,
                )[(loc.x, loc.y)],
                None => !cells_of(*self).contains_key((loc.x, loc.y)),
            },
    {
        self.map.get(&loc)
    }

    /// Calls `HashMap::contains_key`. Trusted: whether the location is a cell.
    #[verifier::external_body]
    pub(crate) fn contains_key(&self, loc: Point) -> (r: bool)
        ensures
            r == cells_of(*self).contains_key((loc.x, loc.y)),
    {
        self.map.contains_key(&loc)
    }

    /// Calls `HashMap::len`. Trusted: the number of cells.
    #[verifier::external_body]
    pub(crate) fn len(&self) -> (n: usize)
        ensures
            n == cells_of(*self).dom().len(),
    {
        self.map.len()
    }

    /// Calls `HashMap::keys`. Trusted: each location that is a cell, once, in the order
    /// that the map walks them (which nothing here states).
    #[verifier::external_body]
    pub(crate) fn locs(&self) -> (r: Vec<Point>)
        ensures
            forall|i: int| 0 <= i < r@.len() ==> cells_of(*self).contains_key(((#[trigger] r@[i]).x, r@[i].y)),
            forall|l: (i32, i32)| #[trigger] cells_of(*self).contains_key(l) ==> exists|i: int|
                0 <= i < r@.len() && (#[trigger] r@[i]).x == l.0 && r@[i].y == l.1,
            r@.no_duplicates(),
    {
        self.map.keys().copied().collect()
    }

    /// Calls `HashMap::insert`. Trusted: the location now has the ids.
    #[verifier::external_body]
    pub(crate) fn insert(&mut self, loc: Point, oids: Vec<Oid>)
        ensures
            cells_of(*final(self)) == cells_of(*old(self)).insert((loc.x, loc.y), oids@),
    {
        self.map.insert(loc, oids);
    }

    /// Calls `HashMap::remove`. Trusted: the location is no longer a cell, and its ids, if
    /// it was one, are returned.
    #[verifier::external_body]
    pub(crate) fn remove(&mut self, loc: Point) -> (r: Option<Vec<Oid>>)
        ensures
            cells_of(*final(self)) == cells_of(*old(self)).remove((loc.x, loc.y)),
            match r {
                Some(oids) => cells_of(*old(self)).contains_key((loc.x, loc.y)) && oids@ == cells_of(
                    *old(self),
                )[(loc.x, loc.y)],
                None => !cells_of(*old(self)).contains_key((loc.x, loc.y)),
            },
    {
        self.map.remove(&loc)
    }
}

// ---------------------------------------------------------------------------------------
// The rules.

/// A cell is layered properly: it holds at least its terrain, every id is an existing
/// object (none both a terrain and a character), the terrain is last and the only terrain, and a character can only be first.
pub open spec fn cell_ok(objs: Map<Oid, Object>, oids: Seq<Oid>) -> bool {
    &&& oids.len() > 0
    &&& forall|i: int| 0 <= i < oids.len() ==> objs.contains_key(#[trigger] oids[i])
    &&& forall|i: int| 0 <= i < oids.len() ==> (objs[#[trigger] oids[i]].spec_has(TERRAIN_ID)
        ==> !objs[oids[i]].spec_has(CHARACTER_ID))
    &&& objs[oids.last()].spec_has(TERRAIN_ID)
    &&& forall|i: int| 0 <= i < oids.len() - 1 ==> !objs[#[trigger] oids[i]].spec_has(TERRAIN_ID)
    &&& forall|i: int| 0 < i < oids.len() ==> !objs[#[trigger] oids[i]].spec_has(CHARACTER_ID)
}

/// No object is at two places of the map.
pub open spec fn placed_once(cells: Map<(i32, i32), Seq<Oid>>) -> bool {
    forall|l1: (i32, i32), l2: (i32, i32), i: int, j: int|
        #![trigger cells[l1][i], cells[l2][j]]
        cells.contains_key(l1) && cells.contains_key(l2) && 0 <= i < cells[l1].len() && 0 <= j
            < cells[l2].len() && cells[l1][i] == cells[l2][j] ==> l1 == l2 && i == j
}

/// The index of the topmost object at or below `from` with a tag of the id, or -1.
pub open spec fn top_with(objs: Map<Oid, Object>, oids: Seq<Oid>, id: u16, from: int) -> int
    decreases from + 1,
{
    if from < 0 {
        -1
    } else if objs[oids[from]].spec_has(id) {
        from
    } else {
        top_with(objs, oids, id, from - 1)
    }
}

pub proof fn lemma_top_with(objs: Map<Oid, Object>, oids: Seq<Oid>, id: u16, from: int)
    requires
        from < oids.len(),
    ensures
        top_with(objs, oids, id, from) < 0 ==> forall|i: int|
            0 <= i <= from ==> !objs[#[trigger] oids[i]].spec_has(id),
        top_with(objs, oids, id, from) >= 0 ==> {
            let r = top_with(objs, oids, id, from);
            &&& 0 <= r <= from
            &&& objs[oids[r]].spec_has(id)
            &&& forall|i: int| r < i <= from ==> !objs[#[trigger] oids[i]].spec_has(id)
        },
    decreases from + 1,
{
    if from >= 0 && !objs[oids[from]].spec_has(id) {
        lemma_top_with(objs, oids, id, from - 1);
    }
}

/// Putting a new id (one that no cell holds) into a cell keeps every object at one place.
pub proof fn lemma_place_new(
    cells: Map<(i32, i32), Seq<Oid>>,
    l: (i32, i32),
    idx: int,
    oid: Oid,
)
    requires
        placed_once(cells),
        forall|k: (i32, i32), i: int|
            cells.contains_key(k) && 0 <= i < cells[k].len() ==> #[trigger] cells[k][i] != oid,
        0 <= idx <= (if cells.contains_key(l) { cells[l].len() as int } else { 0 }),
    ensures
        placed_once(
            cells.insert(
                l,
                (if cells.contains_key(l) { cells[l] } else { Seq::empty() }).insert(idx, oid),
            ),
        ),
{
    let old_cell = if cells.contains_key(l) { cells[l] } else { Seq::<Oid>::empty() };
    let new_cell = old_cell.insert(idx, oid);
    let after = cells.insert(l, new_cell);
    // Where an entry of the new map came from in the old one (None for the new id).
    assert forall|l1: (i32, i32), l2: (i32, i32), i: int, j: int|
        #![trigger after[l1][i], after[l2][j]]
        after.contains_key(l1) && after.contains_key(l2) && 0 <= i < after[l1].len() && 0 <= j
            < after[l2].len() && after[l1][i] == after[l2][j] implies l1 == l2 && i == j by {
        let oi = if l1 == l { if i < idx { i } else { i - 1 } } else { i };
        let oj = if l2 == l { if j < idx { j } else { j - 1 } } else { j };
        let new_i = l1 == l && i == idx;
        let new_j = l2 == l && j == idx;
        if new_i && new_j {
        } else if new_i {
            assert(after[l2][j] == cells[l2][oj]);
            assert(cells[l2][oj] != oid);
        } else if new_j {
            assert(after[l1][i] == cells[l1][oi]);
            assert(cells[l1][oi] != oid);
        } else {
            assert(after[l1][i] == cells[l1][oi]);
            assert(after[l2][j] == cells[l2][oj]);
            assert(cells[l1][oi] == cells[l2][oj]);
            assert(l1 == l2 && oi == oj);
        }
    }
}

/// The index of the first occurrence of the id at or after `from`, or -1.
pub open spec fn index_of(oids: Seq<Oid>, oid: Oid, from: int) -> int
    decreases oids.len() - from,
{
    if from < 0 || from >= oids.len() {
        -1
    } else if oids[from] == oid {
        from
    } else {
        index_of(oids, oid, from + 1)
    }
}

pub proof fn lemma_index_of(oids: Seq<Oid>, oid: Oid, from: int)
    requires
        0 <= from,
    ensures
        index_of(oids, oid, from) < 0 ==> forall|i: int| from <= i < oids.len() ==> oids[i] != oid,
        index_of(oids, oid, from) >= 0 ==> from <= index_of(oids, oid, from) < oids.len()
            && oids[index_of(oids, oid, from)] == oid,
    decreases oids.len() - from,
{
    if from < oids.len() && oids[from] != oid {
        lemma_index_of(oids, oid, from + 1);
    }
}

/// The index of the id among the ids.
pub(crate) fn position(oids: &Vec<Oid>, oid: Oid) -> (r: Option<usize>)
    ensures
        match r {
            Some(i) => i == index_of(oids@, oid, 0) && i < oids@.len(),
            None => index_of(oids@, oid, 0) < 0,
        },
{
    let mut i: usize = 0;
    while i < oids.len()
        invariant
            i <= oids@.len(),
            index_of(oids@, oid, 0) == index_of(oids@, oid, i as int),
        decreases oids@.len() - i,
    {
        if oids[i] == oid {
            return Some(i);
        }
        i = i + 1;
    }
    None
}

/// Taking an id out of a cell keeps every object at one place.
pub proof fn lemma_take_out(cells: Map<(i32, i32), Seq<Oid>>, l: (i32, i32), idx: int)
    requires
        placed_once(cells),
        cells.contains_key(l),
        0 <= idx < cells[l].len(),
    ensures
        placed_once(cells.insert(l, cells[l].remove(idx))),
        forall|k: (i32, i32), i: int|
            cells.insert(l, cells[l].remove(idx)).contains_key(k) && 0 <= i < cells.insert(
                l,
                cells[l].remove(idx),
            )[k].len() ==> #[trigger] cells.insert(l, cells[l].remove(idx))[k][i] != cells[l][idx],
{
    let after = cells.insert(l, cells[l].remove(idx));
    assert forall|l1: (i32, i32), l2: (i32, i32), i: int, j: int|
        #![trigger after[l1][i], after[l2][j]]
        after.contains_key(l1) && after.contains_key(l2) && 0 <= i < after[l1].len() && 0 <= j
            < after[l2].len() && after[l1][i] == after[l2][j] implies l1 == l2 && i == j by {
        let oi = if l1 == l && i >= idx { i + 1 } else { i };
        let oj = if l2 == l && j >= idx { j + 1 } else { j };
        assert(after[l1][i] == cells[l1][oi]);
        assert(after[l2][j] == cells[l2][oj]);
    }
    assert forall|k: (i32, i32), i: int|
        after.contains_key(k) && 0 <= i < after[k].len() implies #[trigger] after[k][i] != cells[l][idx] by {
        let oi = if k == l && i >= idx { i + 1 } else { i };
        assert(after[k][i] == cells[k][oi]);
    }
}

/// Every cell of the map is layered properly.
pub open spec fn cells_ok(objs: Map<Oid, Object>, cells: Map<(i32, i32), Seq<Oid>>) -> bool {
    forall|l: (i32, i32)| #[trigger] cells.contains_key(l) ==> cell_ok(objs, cells[l])
}

/// Putting an existing object that is on no cell, and is not a terrain, into an existing
/// cell, where a character goes first and anything else just after the character, keeps
/// the cells layered and every object at one place; every id stays where it was.
pub proof fn lemma_join_cell(
    objs: Map<Oid, Object>,
    cells: Map<(i32, i32), Seq<Oid>>,
    l: (i32, i32),
    oid: Oid,
    idx: int,
)
    requires
        cells_ok(objs, cells),
        placed_once(cells),
        forall|k: (i32, i32), i: int|
            cells.contains_key(k) && 0 <= i < cells[k].len() ==> #[trigger] cells[k][i] != oid,
        objs.contains_key(oid),
        !objs[oid].spec_has(TERRAIN_ID),
        cells.contains_key(l),
        objs[oid].spec_has(CHARACTER_ID) ==> idx == 0 && !objs[cells[l][0]].spec_has(CHARACTER_ID),
        !objs[oid].spec_has(CHARACTER_ID) ==> idx == (if objs[cells[l][0]].spec_has(CHARACTER_ID) {
            1int
        } else {
            0int
        }),
    ensures
        cells_ok(objs, cells.insert(l, cells[l].insert(idx, oid))),
        placed_once(cells.insert(l, cells[l].insert(idx, oid))),
        forall|k: (i32, i32), x: Oid|
            cells.contains_key(k) && #[trigger] cells[k].contains(x) ==> cells.insert(
                l,
                cells[l].insert(idx, oid),
            )[k].contains(x),
{
    let c = cells[l];
    let nc = c.insert(idx, oid);
    let after = cells.insert(l, nc);
    assert(cell_ok(objs, c));
    lemma_place_new(cells, l, idx, oid);
    assert(if cells.contains_key(l) { cells[l] } else { Seq::<Oid>::empty() } == c);
    assert(0 <= idx < nc.len() - 1) by {
        if idx == 1 {
            assert(!objs[c[0]].spec_has(TERRAIN_ID));
            assert(c.len() >= 2);
        }
    }
    assert(nc.last() == c.last());
    assert(cell_ok(objs, nc));
    assert forall|k: (i32, i32)| #[trigger] after.contains_key(k) implies cell_ok(objs, after[k]) by {
        if k != l {
            assert(cells.contains_key(k));
        }
    }
    assert forall|k: (i32, i32), x: Oid|
        cells.contains_key(k) && #[trigger] cells[k].contains(x) implies after[k].contains(x) by {
        if k == l {
            let j = choose|j: int| 0 <= j < c.len() && c[j] == x;
            if j < idx {
                assert(nc[j] == c[j]);
            } else {
                assert(nc[j + 1] == c[j]);
            }
        }
    }
}

/// Putting a new id (one that no cell holds) in place of an id in a cell keeps every
/// object at one place.
pub proof fn lemma_swap_new(cells: Map<(i32, i32), Seq<Oid>>, l: (i32, i32), idx: int, oid: Oid)
    requires
        placed_once(cells),
        forall|k: (i32, i32), i: int|
            cells.contains_key(k) && 0 <= i < cells[k].len() ==> #[trigger] cells[k][i] != oid,
        cells.contains_key(l),
        0 <= idx < cells[l].len(),
    ensures
        placed_once(cells.insert(l, cells[l].update(idx, oid))),
{
    let after = cells.insert(l, cells[l].update(idx, oid));
    assert forall|l1: (i32, i32), l2: (i32, i32), i: int, j: int|
        #![trigger after[l1][i], after[l2][j]]
        after.contains_key(l1) && after.contains_key(l2) && 0 <= i < after[l1].len() && 0 <= j
            < after[l2].len() && after[l1][i] == after[l2][j] implies l1 == l2 && i == j by {
        let new_i = l1 == l && i == idx;
        let new_j = l2 == l && j == idx;
        if new_i && new_j {
        } else if new_i {
            assert(after[l2][j] == cells[l2][j]);
        } else if new_j {
            assert(after[l1][i] == cells[l1][i]);
        } else {
            assert(after[l1][i] == cells[l1][i]);
            assert(after[l2][j] == cells[l2][j]);
        }
    }
}

/// Used to construct a Model.
pub struct ModelBuilder {
    objects: ObjectMap,
    cells: CellMap,
    default_cell: Vec<Oid>,
    player_loc: Point,
}

/// This is the normalized data associated with a level.
pub struct Model {
    objects: ObjectMap,
    cells: CellMap,
    default_cell: Vec<Oid>,
    player_loc: Point,
    next_id: u32,
}

/// Adding an object (not a terrain, not the player) to a cell and then removing it again
/// gives back the cells and the objects from before; only the id counter has moved on.
pub proof fn law_add_then_remove(m0: Model, m1: Model, m2: Model, obj: Object, loc: Point)
    requires
        m0.wf(),
        !obj.spec_has(TERRAIN_ID),
        !obj.spec_has(PLAYER_ID),
        !m0.objs().contains_key(m0.id_for(obj)),
        m0.cells().contains_key(key(loc)),
        m1.objs() == m0.objs().insert(m0.id_for(obj), obj),
        m1.cells() == m0.cells().insert(
            key(loc),
            m0.cell_or_empty(loc).insert(m0.insert_index(m0.cell_or_empty(loc), obj), m0.id_for(obj)),
        ),
        m2.objs() == m1.objs().remove(m0.id_for(obj)),
        m2.cells() == m1.cells().insert(
            key(loc),
            m1.cells()[key(loc)].remove(index_of(m1.cells()[key(loc)], m0.id_for(obj), 0)),
        ),
    ensures
        m2.objs() == m0.objs(),
        m2.cells() == m0.cells(),
{
    let oid = m0.id_for(obj);
    let l = key(loc);
    let c = m0.cells()[l];
    assert(cell_ok(m0.objs(), c));
    let idx = m0.insert_index(c, obj);
    assert(0 <= idx <= c.len());
    let c2 = c.insert(idx, oid);
    assert(m1.cells()[l] == c2);
    lemma_index_of(c2, oid, 0);
    let found = index_of(c2, oid, 0);
    assert(c2[idx] == oid);
    assert(found >= 0);
    if found < idx {
        assert(c2[found] == c[found]);
        assert(m0.objs().contains_key(c[found]));
    } else if found > idx {
        assert(c2[found] == c[found - 1]);
        assert(m0.objs().contains_key(c[found - 1]));
    }
    assert(found == idx);
    assert(c2.remove(idx) =~= c);
    assert(m2.cells() =~= m0.cells());
    assert(m2.objs() =~= m0.objs());
}

impl Model {
    pub closed spec fn objs(&self) -> Map<Oid, Object> {
        objects_of(self.objects)
    }

    pub closed spec fn cells(&self) -> Map<(i32, i32), Seq<Oid>> {
        cells_of(self.cells)
    }

    pub closed spec fn default_oids(&self) -> Seq<Oid> {
        self.default_cell@
    }

    pub closed spec fn spec_player_loc(&self) -> Point {
        self.player_loc
    }

    pub closed spec fn spec_next_id(&self) -> u32 {
        self.next_id
    }

    /// The default cell's object.
    pub open spec fn default_oid(&self) -> Oid {
        self.default_oids()[0]
    }

    /// The ids at the location: its cell's, or the default cell's.
    pub open spec fn cell_at(&self, loc: Point) -> Seq<Oid> {
        if self.cells().contains_key((loc.x, loc.y)) {
            self.cells()[(loc.x, loc.y)]
        } else {
            self.default_oids()
        }
    }

    /// The next `n` ids to be handed out are free.
    pub open spec fn next_ids_free(&self, n: int) -> bool {
        forall|j: u32|
            self.spec_next_id() <= j < self.spec_next_id() + n ==> !#[trigger] self.objs().contains_key(
                Oid { value: j },
            )
    }

    /// The model's rules: one default object, a terrain that is not a character; the player exists and stands in
    /// its cell; every cell is layered properly; and no object is at two places.
    pub open spec fn wf(&self) -> bool {
        &&& self.default_oids().len() == 1
        &&& self.objs().contains_key(self.default_oid())
        &&& self.objs()[self.default_oid()].spec_has(TERRAIN_ID)
        &&& !self.objs()[self.default_oid()].spec_has(PLAYER_ID)
        &&& !self.objs()[self.default_oid()].spec_has(CHARACTER_ID)
        &&& self.objs().contains_key(Oid { value: 0 })
        &&& self.cells().contains_key((self.spec_player_loc().x, self.spec_player_loc().y))
        &&& self.cells()[(self.spec_player_loc().x, self.spec_player_loc().y)].contains(
            Oid { value: 0 },
        )
        &&& forall|l: (i32, i32)| #[trigger]
            self.cells().contains_key(l) ==> cell_ok(self.objs(), self.cells()[l])
        &&& placed_once(self.cells())
    }

    /// The id that an object added now gets: the player's, or the next one.
    pub open spec fn id_for(&self, obj: Object) -> Oid {
        if obj.spec_has(PLAYER_ID) {
            Oid { value: 0 }
        } else {
            Oid { value: self.spec_next_id() }
        }
    }

    fn next_oid(&mut self, obj: &Object) -> (oid: Oid)
        requires
            old(self).spec_next_id() < u32::MAX,
        ensures
            oid == old(self).id_for(*obj),
            final(self).spec_next_id() == if obj.spec_has(PLAYER_ID) {
                old(self).spec_next_id()
            } else {
                (old(self).spec_next_id() + 1) as u32
            },
            final(self).objs() == old(self).objs(),
            final(self).cells() == old(self).cells(),
            final(self).default_oids() == old(self).default_oids(),
            final(self).spec_player_loc() == old(self).spec_player_loc(),
    {
        if obj.has(Tid(PLAYER_ID)) {
            Oid::without_tag(0)
        } else {
            let o = Oid::without_tag(self.next_id);
            self.next_id = self.next_id + 1;
            o
        }
    }

    /// The cells after the object is taken out of the cell at `from` and put in the cell at
    /// `to`, where an object like it goes.
    pub open spec fn moved_cells(&self, oid: Oid, from: Point, to: Point) -> Map<(i32, i32), Seq<Oid>> {
        let c = self.cells()[key(from)];
        let mid = self.cells().insert(key(from), c.remove(index_of(c, oid, 0)));
        let ct = mid[key(to)];
        mid.insert(key(to), ct.insert(self.insert_index(ct, self.objs()[oid]), oid))
    }

    /// Where an object is put in a cell: terrain at the end, a character at the start, and
    /// anything else at the start or just after the character.
    pub open spec fn insert_index(&self, oids: Seq<Oid>, obj: Object) -> int {
        if obj.spec_has(TERRAIN_ID) {
            oids.len() as int
        } else if obj.spec_has(CHARACTER_ID) {
            0
        } else if oids.len() > 0 && self.objs()[oids[0]].spec_has(CHARACTER_ID) {
            1
        } else {
            0
        }
    }

    /// The ids at the location, or none if it is not a cell.
    pub open spec fn cell_or_empty(&self, loc: Point) -> Seq<Oid> {
        if self.cells().contains_key((loc.x, loc.y)) {
            self.cells()[(loc.x, loc.y)]
        } else {
            Seq::empty()
        }
    }

    /// Whether the object can be put at the location: a terrain where there is no
    /// terrain yet, a character where there is no character yet.
    pub open spec fn can_place(&self, oids: Seq<Oid>, obj: Object) -> bool {
        if obj.spec_has(TERRAIN_ID) {
            !(oids.len() > 0 && self.objs()[oids.last()].spec_has(TERRAIN_ID))
        } else if obj.spec_has(CHARACTER_ID) {
            !(oids.len() > 0 && self.objs()[oids[0]].spec_has(CHARACTER_ID))
        } else {
            true
        }
    }

    fn add_to_cell(&mut self, oid: Oid, loc: Point)
        requires
            old(self).objs().contains_key(oid),
            old(self).can_place(old(self).cell_or_empty(loc), old(self).objs()[oid]),
            forall|i: int| 0 <= i < old(self).cell_or_empty(loc).len() ==> old(self).objs().contains_key(
                #[trigger] old(self).cell_or_empty(loc)[i],
            ),
        ensures
            final(self).cells() == old(self).cells().insert(
                (loc.x, loc.y),
                old(self).cell_or_empty(loc).insert(
                    old(self).insert_index(old(self).cell_or_empty(loc), old(self).objs()[oid]),
                    oid,
                ),
            ),
            final(self).objs() == old(self).objs(),
            final(self).default_oids() == old(self).default_oids(),
            final(self).spec_player_loc() == old(self).spec_player_loc(),
            final(self).spec_next_id() == old(self).spec_next_id(),
    {
        let obj = self.objects.get(oid).unwrap();
        let mut oids = match self.cells.remove(loc) {
            Some(oids) => oids,
            None => Vec::new(),
        };
        let index = if obj.has(Tid(TERRAIN_ID)) {
            oids.len()
        } else if obj.has(Tid(CHARACTER_ID)) {
            0
        } else if oids.len() > 0 && self.objects.get(oids[0]).unwrap().has(Tid(CHARACTER_ID)) {
            1
        } else {
            0
        };
        oids.insert(index, oid);
        self.cells.insert(loc, oids);
    }

    /// Adds a new object, on the map at the location or (for an item) nowhere. A terrain
    /// starts a new cell; anything else joins an existing cell, a character one without a
    /// character. Returns the object's id.
    pub fn add(&mut self, obj: Object, loc: Option<Point>) -> (oid: Oid)
        requires
            old(self).wf(),
            obj.wf(),
            old(self).spec_next_id() < u32::MAX,
            !old(self).objs().contains_key(old(self).id_for(obj)),
            obj.spec_has(CHARACTER_ID) ==> loc is Some,
            loc matches Some(l) ==> if obj.spec_has(TERRAIN_ID) {
                !old(self).cells().contains_key((l.x, l.y))
            } else {
                old(self).cells().contains_key((l.x, l.y)) && (obj.spec_has(CHARACTER_ID)
                    ==> !old(self).objs()[old(self).cells()[(l.x, l.y)][0]].spec_has(CHARACTER_ID))
            },
        ensures
            final(self).wf(),
            oid == old(self).id_for(obj),
            final(self).objs() == old(self).objs().insert(oid, obj),
            match loc {
                Some(l) => final(self).cells() == old(self).cells().insert(
                    (l.x, l.y),
                    old(self).cell_or_empty(l).insert(
                        old(self).insert_index(old(self).cell_or_empty(l), obj),
                        oid,
                    ),
                ),
                None => final(self).cells() == old(self).cells(),
            },
            final(self).spec_player_loc() == old(self).spec_player_loc(),
    {
        let ghost before = *self;
        let oid = self.next_oid(&obj);
        let is_terrain = obj.has(Tid(TERRAIN_ID));
        let old_obj = self.objects.insert(oid, obj);
        assert(old_obj.is_none());
        proof {
            // The new id is in no cell, since every id in a cell is an existing object.
            assert forall|k: (i32, i32), i: int|
                self.cells().contains_key(k) && 0 <= i < self.cells()[k].len() implies #[trigger] self.cells()[k][i] != oid by {
                assert(cell_ok(before.objs(), before.cells()[k]));
                assert(before.objs().contains_key(before.cells()[k][i]));
            }
            assert forall|l: (i32, i32)| #[trigger] self.cells().contains_key(l) implies cell_ok(
                self.objs(),
                self.cells()[l],
            ) by {
                let c = self.cells()[l];
                assert(cell_ok(before.objs(), c));
                assert forall|i: int| 0 <= i < c.len() implies self.objs()[#[trigger] c[i]] == before.objs()[c[i]] by {
                    assert(before.objs().contains_key(c[i]));
                }
            }
        }
        if let Some(loc) = loc {
            let ghost mid = *self;
            let ghost l = (loc.x, loc.y);
            let ghost c = mid.cell_or_empty(loc);
            let ghost idx = mid.insert_index(c, mid.objs()[oid]);
            proof {
                if mid.cells().contains_key(l) {
                    assert(cell_ok(mid.objs(), c));
                }
                assert forall|i: int| 0 <= i < c.len() implies mid.objs().contains_key(#[trigger] c[i]) by {
                    assert(cell_ok(mid.objs(), c));
                }
            }
            self.add_to_cell(oid, loc);
            proof {
                lemma_place_new(mid.cells(), l, idx, oid);
                let nc = c.insert(idx, oid);
                let objs = self.objs();
                assert(objs[oid] == obj);
                if is_terrain {
                    assert(c.len() == 0);
                    assert(nc =~= seq![oid]);
                } else {
                    assert(cell_ok(objs, c));
                    assert(!objs[c.last()].spec_has(CHARACTER_ID));
                    assert(0 <= idx < nc.len() - 1) by {
                        if idx == 1 {
                            assert(!objs[c[0]].spec_has(TERRAIN_ID));
                            assert(c.len() >= 2);
                        }
                    }
                    assert(nc.last() == c.last());
                }
                assert(cell_ok(objs, nc));
                assert forall|k: (i32, i32)| #[trigger] self.cells().contains_key(k) implies cell_ok(
                    self.objs(),
                    self.cells()[k],
                ) by {
                    if k != l {
                        assert(mid.cells().contains_key(k));
                    }
                }
                let p = (self.spec_player_loc().x, self.spec_player_loc().y);
                assert(mid.cells()[p].contains(Oid { value: 0 }));
                if p == l {
                    let j = choose|j: int| 0 <= j < c.len() && c[j] == Oid { value: 0 };
                    if j < idx {
                        assert(nc[j] == c[j]);
                    } else {
                        assert(nc[j + 1] == c[j]);
                    }
                }
            }
        }
        oid
    }

    /// Destroys the object, which is at the location and is not a terrain or the player.
    pub fn remove(&mut self, oid: Oid, loc: Point)
        requires
            old(self).wf(),
            old(self).objs().contains_key(oid),
            !old(self).objs()[oid].spec_has(TERRAIN_ID),
            oid.value != 0,
            old(self).cells().contains_key((loc.x, loc.y)),
            index_of(old(self).cells()[(loc.x, loc.y)], oid, 0) >= 0,
        ensures
            final(self).wf(),
            final(self).objs() == old(self).objs().remove(oid),
            final(self).cells() == old(self).cells().insert(
                (loc.x, loc.y),
                old(self).cells()[(loc.x, loc.y)].remove(
                    index_of(old(self).cells()[(loc.x, loc.y)], oid, 0),
                ),
            ),
            final(self).spec_player_loc() == old(self).spec_player_loc(),
    {
        let ghost before = *self;
        let ghost l = (loc.x, loc.y);
        let ghost c = before.cells()[l];
        let old_obj = self.objects.remove(oid);
        assert(old_obj.is_some());
        let mut oids = self.cells.remove(loc).unwrap();
        let index = position(&oids, oid).unwrap();
        oids.remove(index);
        self.cells.insert(loc, oids);
        proof {
            let idx = index as int;
            lemma_index_of(c, oid, 0);
            assert(c[idx] == oid);
            lemma_take_out(before.cells(), l, idx);
            assert(cell_ok(before.objs(), c));
            let nc = c.remove(idx);
            let objs = self.objs();
            assert(idx < c.len() - 1) by {
                if idx == c.len() - 1 {
                    assert(before.objs()[c.last()].spec_has(TERRAIN_ID));
                }
            }
            assert forall|k: (i32, i32)| #[trigger] self.cells().contains_key(k) implies cell_ok(
                objs,
                self.cells()[k],
            ) by {
                let d = self.cells()[k];
                if k != l {
                    assert(cell_ok(before.objs(), d));
                }
                assert forall|i: int| 0 <= i < d.len() implies objs.contains_key(#[trigger] d[i])
                    && objs[d[i]] == before.objs()[d[i]] by {
                    assert(self.cells()[k][i] != oid);
                    if k == l {
                        let oi = if i >= idx { i + 1 } else { i };
                        assert(d[i] == c[oi]);
                    }
                }
                if k == l {
                    assert(nc.last() == c.last());
                    assert forall|i: int| 0 <= i < nc.len() - 1 implies !objs[#[trigger] nc[i]].spec_has(TERRAIN_ID) by {
                        let oi = if i >= idx { i + 1 } else { i };
                        assert(nc[i] == c[oi]);
                    }
                    assert forall|i: int| 0 < i < nc.len() implies !objs[#[trigger] nc[i]].spec_has(CHARACTER_ID) by {
                        let oi = if i >= idx { i + 1 } else { i };
                        assert(nc[i] == c[oi]);
                        if idx == 0 && i == 0 {
                        }
                    }
                }
            }
            let p = (self.spec_player_loc().x, self.spec_player_loc().y);
            assert(before.cells()[p].contains(Oid { value: 0 }));
            if p == l {
                let j = choose|j: int| 0 <= j < c.len() && c[j] == Oid { value: 0 };
                assert(j != idx);
                if j < idx {
                    assert(nc[j] == c[j]);
                } else {
                    assert(nc[j - 1] == c[j]);
                }
            }
        }
    }

    /// Puts an existing object that is on no cell (typically one dropped from an
    /// inventory) into the cell at the location, just after its character if it has one.
    /// The object must not be a terrain or a character.
    pub fn add_oid(&mut self, oid: Oid, loc: Point)
        requires
            old(self).wf(),
            old(self).objs().contains_key(oid),
            !old(self).objs()[oid].spec_has(TERRAIN_ID),
            !old(self).objs()[oid].spec_has(CHARACTER_ID),
            old(self).cells().contains_key((loc.x, loc.y)),
            forall|k: (i32, i32), i: int|
                old(self).cells().contains_key(k) && 0 <= i < old(self).cells()[k].len()
                    ==> #[trigger] old(self).cells()[k][i] != oid,
        ensures
            final(self).wf(),
            final(self).objs() == old(self).objs(),
            final(self).cells() == old(self).cells().insert(
                (loc.x, loc.y),
                old(self).cells()[(loc.x, loc.y)].insert(
                    old(self).insert_index(old(self).cells()[(loc.x, loc.y)], old(self).objs()[oid]),
                    oid,
                ),
            ),
            final(self).spec_player_loc() == old(self).spec_player_loc(),
    {
        let ghost before = *self;
        let ghost l = (loc.x, loc.y);
        proof {
            assert(cell_ok(before.objs(), before.cells()[l]));
            assert(before.cell_or_empty(loc) == before.cells()[l]);
        }
        self.add_to_cell(oid, loc);
        proof {
            let c = before.cells()[l];
            lemma_join_cell(before.objs(), before.cells(), l, oid, before.insert_index(c, before.objs()[oid]));
            let p = (self.spec_player_loc().x, self.spec_player_loc().y);
            assert(before.cells()[p].contains(Oid { value: 0 }));
        }
    }

    /// Moves an item or a character (not a terrain) from one cell to another (a character
    /// into a cell without one).
    pub fn change_loc(&mut self, oid: Oid, from: Point, to: Point)
        requires
            old(self).wf(),
            old(self).objs().contains_key(oid),
            old(self).objs()[oid].spec_has(PORTABLE_ID) || old(self).objs()[oid].spec_has(
                CHARACTER_ID,
            ),
            !old(self).objs()[oid].spec_has(TERRAIN_ID),
            old(self).cells().contains_key((from.x, from.y)),
            index_of(old(self).cells()[(from.x, from.y)], oid, 0) >= 0,
            old(self).cells().contains_key((to.x, to.y)),
            old(self).objs()[oid].spec_has(CHARACTER_ID) ==> (from == to || !old(self).objs()[old(
                self,
            ).cells()[(to.x, to.y)][0]].spec_has(CHARACTER_ID)),
        ensures
            final(self).wf(),
            final(self).objs() == old(self).objs(),
            final(self).cells() == old(self).moved_cells(oid, from, to),
            final(self).cells()[(to.x, to.y)].contains(oid),
            final(self).spec_player_loc() == if oid.value == 0 {
                to
            } else {
                old(self).spec_player_loc()
            },
    {
        let ghost before = *self;
        let ghost lf = (from.x, from.y);
        let ghost lt = (to.x, to.y);
        let ghost c = before.cells()[lf];
        let mut oids = self.cells.remove(from).unwrap();
        let index = position(&oids, oid).unwrap();
        oids.remove(index);
        self.cells.insert(from, oids);
        let ghost mid = *self;
        proof {
            let idx = index as int;
            let objs = before.objs();
            lemma_index_of(c, oid, 0);
            lemma_take_out(before.cells(), lf, idx);
            assert(cell_ok(objs, c));
            let nc = c.remove(idx);
            assert(idx < c.len() - 1) by {
                if idx == c.len() - 1 {
                    assert(objs[c.last()].spec_has(TERRAIN_ID));
                }
            }
            assert(nc.last() == c.last());
            assert forall|i: int| 0 <= i < nc.len() implies objs.contains_key(#[trigger] nc[i]) by {
                let oi = if i >= idx { i + 1 } else { i };
                assert(nc[i] == c[oi]);
            }
            assert forall|i: int| 0 <= i < nc.len() - 1 implies !objs[#[trigger] nc[i]].spec_has(TERRAIN_ID) by {
                let oi = if i >= idx { i + 1 } else { i };
                assert(nc[i] == c[oi]);
            }
            assert forall|i: int| 0 < i < nc.len() implies !objs[#[trigger] nc[i]].spec_has(CHARACTER_ID) by {
                let oi = if i >= idx { i + 1 } else { i };
                assert(nc[i] == c[oi]);
            }
            assert forall|i: int| 0 <= i < nc.len() implies (objs[#[trigger] nc[i]].spec_has(TERRAIN_ID)
                ==> !objs[nc[i]].spec_has(CHARACTER_ID)) by {
                let oi = if i >= idx { i + 1 } else { i };
                assert(nc[i] == c[oi]);
            }
            assert(cell_ok(objs, nc));
            assert forall|k: (i32, i32)| #[trigger] mid.cells().contains_key(k) implies cell_ok(
                objs,
                mid.cells()[k],
            ) by {
                if k != lf {
                    assert(before.cells().contains_key(k));
                }
            }
            assert(cells_ok(objs, mid.cells()));
            assert(mid.cell_or_empty(to) == mid.cells()[lt]);
            if objs[oid].spec_has(CHARACTER_ID) {
                if from == to {
                    assert(idx == 0) by {
                        if idx > 0 {
                            assert(!objs[c[idx]].spec_has(CHARACTER_ID));
                        }
                    }
                    assert(!objs[nc[0]].spec_has(CHARACTER_ID)) by {
                        assert(nc[0] == c[1]);
                    }
                } else {
                    assert(mid.cells()[lt] == before.cells()[lt]);
                }
            }
            assert forall|i: int| 0 <= i < mid.cell_or_empty(to).len() implies objs.contains_key(
                #[trigger] mid.cell_or_empty(to)[i],
            ) by {
                assert(cell_ok(objs, mid.cells()[lt]));
            }
        }
        self.add_to_cell(oid, to);
        proof {
            let objs = before.objs();
            let ct = mid.cells()[lt];
            lemma_join_cell(objs, mid.cells(), lt, oid, mid.insert_index(ct, objs[oid]));
            let j = mid.insert_index(ct, objs[oid]);
            assert(self.cells()[lt][j] == oid);
        }
        if oid.value == 0 {
            self.player_loc = to;
        }
        proof {
            let p = (self.spec_player_loc().x, self.spec_player_loc().y);
            if oid.value == 0 {
                let j = mid.insert_index(mid.cells()[lt], before.objs()[oid]);
                assert(self.cells()[p][j] == Oid { value: 0 });
            } else {
                let c0 = before.cells()[p];
                assert(c0.contains(Oid { value: 0 }));
                if p == lf {
                    let j = choose|j: int| 0 <= j < c0.len() && c0[j] == Oid { value: 0 };
                    let idx = index as int;
                    assert(c0[idx] == oid);
                    assert(j != idx);
                    if j < idx {
                        assert(mid.cells()[p][j] == c0[j]);
                    } else {
                        assert(mid.cells()[p][j - 1] == c0[j]);
                    }
                }
                assert(mid.cells()[p].contains(Oid { value: 0 }));
            }
        }
    }

    /// Makes the location a cell of its own with a copy of the default object.
    fn add_default(&mut self, new_loc: Point)
        requires
            old(self).wf(),
            old(self).next_ids_free(1),
            old(self).spec_next_id() < u32::MAX,
            !old(self).cells().contains_key((new_loc.x, new_loc.y)),
        ensures
            final(self).wf(),
            forall|n: int| old(self).next_ids_free(n + 1) ==> #[trigger] final(self).next_ids_free(n),
            final(self).spec_next_id() == old(self).spec_next_id() + 1,
            final(self).cells().contains_key((new_loc.x, new_loc.y)),
            final(self).cells()[(new_loc.x, new_loc.y)] == seq![Oid { value: old(self).spec_next_id() }],
            forall|id: u16| #[trigger] final(self).objs()[Oid { value: old(self).spec_next_id() }].spec_has(id)
                == old(self).objs()[old(self).default_oid()].spec_has(id),
            final(self).cells().dom() == old(self).cells().dom().insert((new_loc.x, new_loc.y)),
            forall|k: (i32, i32)| #[trigger] old(self).cells().contains_key(k) ==> final(self).cells()[k]
                == old(self).cells()[k],
            forall|k: Oid| #[trigger] old(self).objs().contains_key(k) ==> final(self).objs().contains_key(k)
                && final(self).objs()[k] == old(self).objs()[k],
            final(self).spec_player_loc() == old(self).spec_player_loc(),
            final(self).default_oids() == old(self).default_oids(),
    {
        let ghost before = *self;
        let old_oid = self.default_cell[0];
        let new_obj = self.objects.get(old_oid).unwrap().clone();
        proof {
            let d = before.objs()[old_oid];
            assert forall|id: u16| #[trigger] new_obj.spec_has(id) == d.spec_has(id) by {
                object::lemma_same_tags_find(new_obj.spec_tags(), d.spec_tags(), id, 0);
            }
        }
        let new_oid = self.next_oid(&new_obj);
        let old = self.objects.insert(new_oid, new_obj);
        assert(old.is_none());
        let mut oids: Vec<Oid> = Vec::new();
        oids.push(new_oid);
        self.cells.insert(new_loc, oids);
        proof {
            let l = (new_loc.x, new_loc.y);
            let objs = self.objs();
            assert forall|k: (i32, i32), i: int|
                before.cells().contains_key(k) && 0 <= i < before.cells()[k].len() implies #[trigger] before.cells()[k][i] != new_oid by {
                assert(cell_ok(before.objs(), before.cells()[k]));
                assert(before.objs().contains_key(before.cells()[k][i]));
            }
            lemma_place_new(before.cells(), l, 0, new_oid);
            assert(Seq::<Oid>::empty().insert(0, new_oid) =~= seq![new_oid]);
            assert forall|k: (i32, i32)| #[trigger] self.cells().contains_key(k) implies cell_ok(objs, self.cells()[k]) by {
                if k != l {
                    let c = before.cells()[k];
                    assert(cell_ok(before.objs(), c));
                    assert forall|i: int| 0 <= i < c.len() implies objs[#[trigger] c[i]] == before.objs()[c[i]] by {
                        assert(before.objs().contains_key(c[i]));
                    }
                }
            }
            assert(self.cells().dom() =~= before.cells().dom().insert(l));
            let p = (self.spec_player_loc().x, self.spec_player_loc().y);
            assert(p != l);
        }
    }

    /// Ensure that points around loc are in cells. This is typically used after something
    /// like a dig action so that characters can interact with newly exposed cells.
    pub fn ensure_neighbors(&mut self, loc: Point)
        requires
            old(self).wf(),
            old(self).next_ids_free(8),
            old(self).spec_next_id() < u32::MAX - 8,
            i32::MIN < loc.x < i32::MAX,
            i32::MIN < loc.y < i32::MAX,
        ensures
            final(self).wf(),
            forall|dx: int, dy: int|
                -1 <= dx <= 1 && -1 <= dy <= 1 && !(dx == 0 && dy == 0) ==> #[trigger] final(self).cells().contains_key(
                    ((loc.x + dx) as i32, (loc.y + dy) as i32),
                ),
            forall|k: (i32, i32)| #[trigger] old(self).cells().contains_key(k) ==> final(self).cells()[k]
                == old(self).cells()[k],
            final(self).spec_player_loc() == old(self).spec_player_loc(),
    {
        let deltas: Vec<(i32, i32)> = vec![(-1, -1), (-1, 1), (-1, 0), (1, -1), (1, 1), (1, 0), (0, -1), (0, 1)];
        let ghost start = *self;
        let mut n: usize = 0;
        while n < deltas.len()
            invariant
                deltas@ == seq![(-1i32, -1i32), (-1i32, 1i32), (-1i32, 0i32), (1i32, -1i32), (1i32, 1i32), (1i32, 0i32), (0i32, -1i32), (0i32, 1i32)],
                n <= 8,
                self.wf(),
                self.next_ids_free(8 - n),
                self.spec_next_id() <= start.spec_next_id() + n,
                start.spec_next_id() < u32::MAX - 8,
                i32::MIN < loc.x < i32::MAX,
                i32::MIN < loc.y < i32::MAX,
                forall|m: int| #![trigger deltas@[m]] 0 <= m < n ==> self.cells().contains_key(
                    ((loc.x + deltas@[m].0) as i32, (loc.y + deltas@[m].1) as i32),
                ),
                forall|k: (i32, i32)| #[trigger] start.cells().contains_key(k) ==> self.cells().contains_key(k) && self.cells()[k]
                    == start.cells()[k],
                self.spec_player_loc() == start.spec_player_loc(),
            decreases 8 - n,
        {
            let delta = deltas[n];
            let new_loc = Point::new(loc.x + delta.0, loc.y + delta.1);
            if !self.cells.contains_key(new_loc) {
                self.add_default(new_loc);
            }
            n = n + 1;
        }
        proof {
            assert forall|dx: int, dy: int|
                -1 <= dx <= 1 && -1 <= dy <= 1 && !(dx == 0 && dy == 0) implies #[trigger] self.cells().contains_key(
                    ((loc.x + dx) as i32, (loc.y + dy) as i32),
                ) by {
                let m = if dx == -1 && dy == -1 { 0 } else if dx == -1 && dy == 1 { 1 } else if dx == -1 { 2 }
                    else if dx == 1 && dy == -1 { 3 } else if dx == 1 && dy == 1 { 4 } else if dx == 1 { 5 }
                    else if dy == -1 { 6 } else { 7int };
                assert(deltas@[m].0 == dx && deltas@[m].1 == dy);
            }
        }
    }

    /// The topmost object at the location with a tag of the id, for changing it; a
    /// location outside the map first gets a cell of its own with a copy of the default
    /// object.
    pub fn get_mut(&mut self, loc: Point, tag: Tid) -> (r: Option<(Oid, &mut Object)>)
        requires
            old(self).wf(),
            old(self).next_ids_free(1),
            old(self).spec_next_id() < u32::MAX,
        ensures
            final(self).cells().contains_key((loc.x, loc.y)),
            forall|k: (i32, i32)| #[trigger] old(self).cells().contains_key(k) ==> final(self).cells()[k]
                == old(self).cells()[k],
            final(self).spec_player_loc() == old(self).spec_player_loc(),
            old(self).cells().contains_key((loc.x, loc.y)) ==> ({
                let oids = old(self).cells()[(loc.x, loc.y)];
                let i = top_with(old(self).objs(), oids, tag.0, oids.len() - 1);
                match r {
                    Some((oid, obj)) => i >= 0 && oid == oids[i] && *obj == old(self).objs()[oid]
                        && final(self).objs() == old(self).objs().insert(oid, *final(obj)),
                    None => i < 0 && final(self).objs() == old(self).objs(),
                }
            }),
            !old(self).cells().contains_key((loc.x, loc.y)) ==> (final(self).cells()[(loc.x, loc.y)]
                == seq![Oid { value: old(self).spec_next_id() }] && (r is Some
                <==> old(self).objs()[old(self).default_oid()].spec_has(tag.0))),
    {
        if !self.cells.contains_key(loc) {
            self.add_default(loc);
        }
        let ghost mid = *self;
        let mut found: Option<Oid> = None;
        let ghost l = (loc.x, loc.y);
        if let Some(oids) = self.cells.get(loc) {
            proof {
                assert(cell_ok(self.objs(), oids@));
            }
            let mut i = oids.len();
            while i > 0
                invariant_except_break
                    found is None,
                    top_with(self.objs(), oids@, tag.0, oids@.len() - 1) == top_with(
                        self.objs(),
                        oids@,
                        tag.0,
                        i - 1,
                    ),
                invariant
                    i <= oids@.len(),
                    cell_ok(self.objs(), oids@),
                ensures
                    match found {
                        Some(oid) => {
                            let j = top_with(self.objs(), oids@, tag.0, oids@.len() - 1);
                            j >= 0 && oid == oids@[j]
                        },
                        None => top_with(self.objs(), oids@, tag.0, oids@.len() - 1) < 0,
                    },
                decreases i,
            {
                let oid = oids[i - 1];
                if self.objects.get(oid).unwrap().has(tag) {
                    found = Some(oid);
                    break;
                }
                i = i - 1;
            }
        }
        match found {
            Some(oid) => {
                proof {
                    let oids = mid.cells()[l];
                    let j = top_with(mid.objs(), oids, tag.0, oids.len() - 1);
                    assert(cell_ok(mid.objs(), oids));
                    lemma_top_with(mid.objs(), oids, tag.0, oids.len() - 1);
                    assert(mid.objs().contains_key(oids[j]));
                }
                let obj = self.objects.get_mut(oid);
                Some((oid, obj))
            },
            None => None,
        }
    }

    /// Replaces the object with a new object (with a new id) at the same place in the
    /// cell at the location. The new object must fit there: a terrain exactly where the
    /// terrain was, a character only first. The player and the default object cannot be
    /// replaced.
    pub fn replace(&mut self, loc: Point, old_oid: Oid, new_obj: Object) -> (new_oid: Oid)
        requires
            old(self).wf(),
            old(self).objs().contains_key(old_oid),
            old_oid.value != 0,
            old_oid != old(self).default_oid(),
            old(self).cells().contains_key((loc.x, loc.y)),
            index_of(old(self).cells()[(loc.x, loc.y)], old_oid, 0) >= 0,
            old(self).spec_next_id() < u32::MAX,
            !old(self).objs().contains_key(old(self).id_for(new_obj)),
            ({
                let c = old(self).cells()[(loc.x, loc.y)];
                let i = index_of(c, old_oid, 0);
                &&& new_obj.spec_has(TERRAIN_ID) == (i == c.len() - 1)
                &&& i > 0 ==> !new_obj.spec_has(CHARACTER_ID)
                &&& new_obj.spec_has(TERRAIN_ID) ==> !new_obj.spec_has(CHARACTER_ID)
            }),
        ensures
            final(self).wf(),
            new_oid == old(self).id_for(new_obj),
            final(self).objs() == old(self).objs().insert(new_oid, new_obj).remove(old_oid),
            final(self).cells() == old(self).cells().insert(
                (loc.x, loc.y),
                old(self).cells()[(loc.x, loc.y)].update(
                    index_of(old(self).cells()[(loc.x, loc.y)], old_oid, 0),
                    new_oid,
                ),
            ),
            final(self).spec_player_loc() == old(self).spec_player_loc(),
    {
        let ghost before = *self;
        let ghost l = (loc.x, loc.y);
        let ghost c = before.cells()[l];
        let new_oid = self.next_oid(&new_obj);
        let old = self.objects.insert(new_oid, new_obj);
        assert(old.is_none());
        let _ = self.objects.remove(old_oid);
        let mut oids = self.cells.remove(loc).unwrap();
        let index = position(&oids, old_oid).unwrap();
        oids.set(index, new_oid);
        self.cells.insert(loc, oids);
        proof {
            let idx = index as int;
            lemma_index_of(c, old_oid, 0);
            assert(c[idx] == old_oid);
            let objs = self.objs();
            assert(new_oid != old_oid);
            assert forall|k: (i32, i32), i: int|
                before.cells().contains_key(k) && 0 <= i < before.cells()[k].len() implies #[trigger] before.cells()[k][i] != new_oid by {
                assert(cell_ok(before.objs(), before.cells()[k]));
                assert(before.objs().contains_key(before.cells()[k][i]));
            }
            lemma_swap_new(before.cells(), l, idx, new_oid);
            let nc = c.update(idx, new_oid);
            assert forall|k: (i32, i32)| #[trigger] self.cells().contains_key(k) implies cell_ok(
                objs,
                self.cells()[k],
            ) by {
                let d = before.cells()[k];
                assert(cell_ok(before.objs(), d));
                if k != l {
                    assert forall|i: int| 0 <= i < d.len() implies objs.contains_key(#[trigger] d[i])
                        && objs[d[i]] == before.objs()[d[i]] by {
                        assert(before.objs().contains_key(d[i]));
                        if d[i] == old_oid {
                            assert(before.cells()[l][idx] == before.cells()[k][i]);
                        }
                    }
                } else {
                    assert forall|i: int| 0 <= i < nc.len() && i != idx implies objs.contains_key(#[trigger] nc[i])
                        && objs[nc[i]] == before.objs()[nc[i]] by {
                        assert(nc[i] == c[i]);
                        assert(before.objs().contains_key(c[i]));
                        if c[i] == old_oid {
                            assert(before.cells()[l][idx] == before.cells()[l][i]);
                        }
                    }
                    assert(objs[nc[idx]] == new_obj);
                    assert forall|i: int| 0 <= i < nc.len() implies objs.contains_key(#[trigger] nc[i]) by {
                        if i != idx {
                            assert(objs.contains_key(nc[i]));
                        }
                    }
                    assert(objs[nc.last()].spec_has(TERRAIN_ID)) by {
                        if idx != nc.len() - 1 {
                            assert(objs[nc.last()] == before.objs()[c.last()]);
                        }
                    }
                }
            }
            assert(objs[self.default_oid()] == before.objs()[before.default_oid()]);
            assert(objs.contains_key(Oid { value: 0 }));
            let p = (self.spec_player_loc().x, self.spec_player_loc().y);
            let c0 = before.cells()[p];
            assert(c0.contains(Oid { value: 0 }));
            if p == l {
                let j = choose|j: int| 0 <= j < c0.len() && c0[j] == Oid { value: 0 };
                assert(j != idx);
                assert(nc[j] == c0[j]);
            }
        }
        new_oid
    }

    /// The character at the location takes the item there into its inventory: the item
    /// leaves the cell, and its id goes at the end of the character's inventory.
    pub fn pickup(&mut self, loc: Point, oid: Oid)
        requires
            old(self).wf(),
            old(self).objs().contains_key(oid),
            oid.value != 0,
            old(self).objs()[oid].spec_has(PORTABLE_ID),
            !old(self).objs()[oid].spec_has(TERRAIN_ID),
            !old(self).objs()[oid].spec_has(CHARACTER_ID),
            old(self).cells().contains_key((loc.x, loc.y)),
            index_of(old(self).cells()[(loc.x, loc.y)], oid, 0) >= 0,
            old(self).objs()[old(self).cells()[(loc.x, loc.y)][0]].spec_has(CHARACTER_ID),
            object::can_take(old(self).objs()[old(self).cells()[(loc.x, loc.y)][0]], oid),
        ensures
            final(self).wf(),
            ({
                let ch = old(self).cells()[(loc.x, loc.y)][0];
                let before = old(self).objs()[ch].spec_tags();
                let after = final(self).objs()[ch].spec_tags();
                &&& final(self).objs().dom() == old(self).objs().dom()
                &&& forall|k: Oid| k != ch ==> #[trigger] final(self).objs()[k] == old(self).objs()[k]
                &&& object::inventory_of(after) == Some(object::inventory_of(before)->0.push(oid))
                &&& after.len() == before.len()
                &&& forall|i: int|
                    0 <= i < before.len() && i != object::find_id(before, tag::INVENTORY_ID, 0) ==> #[trigger] after[i]
                        == before[i]
                &&& final(self).objs()[ch].spec_name() == old(self).objs()[ch].spec_name()
                &&& final(self).objs()[ch].spec_description() == old(self).objs()[ch].spec_description()
                &&& final(self).objs()[ch].spec_symbol() == old(self).objs()[ch].spec_symbol()
                &&& final(self).objs()[ch].spec_color() == old(self).objs()[ch].spec_color()
            }),
            final(self).cells() == old(self).cells().insert(
                (loc.x, loc.y),
                old(self).cells()[(loc.x, loc.y)].remove(
                    index_of(old(self).cells()[(loc.x, loc.y)], oid, 0),
                ),
            ),
            final(self).spec_player_loc() == old(self).spec_player_loc(),
    {
        let ghost before = *self;
        let ghost l = (loc.x, loc.y);
        let ghost c = before.cells()[l];
        let mut oids = self.cells.remove(loc).unwrap();
        let ch_oid = oids[0];
        let index = position(&oids, oid).unwrap();
        proof {
            lemma_index_of(c, oid, 0);
            assert(index != 0);
        }
        oids.remove(index);
        self.cells.insert(loc, oids);
        let mut ch = self.objects.remove(ch_oid).unwrap();
        let mut inv: Vec<Oid> = Vec::new();
        let mut i: usize = 0;
        let items = ch.inventory_value().unwrap();
        while i < items.len()
            invariant
                i <= items@.len(),
                inv@ == items@.subrange(0, i as int),
            decreases items@.len() - i,
        {
            inv.push(items[i]);
            assert(items@.subrange(0, i + 1) =~= items@.subrange(0, i as int).push(items@[i as int]));
            i = i + 1;
        }
        assert(items@.subrange(0, items@.len() as int) =~= items@);
        inv.push(oid);
        let ghost old_tags = ch.spec_tags();
        proof {
            object::lemma_find_id(old_tags, tag::INVENTORY_ID, 0);
        }
        let new_tag = Tag::Inventory(inv);
        proof {
            object::lemma_take_keeps_rules(old_tags, new_tag, oid);
        }
        ch.replace(new_tag);
        proof {
            let t = ch.spec_tags();
            let k = object::find_id(old_tags, tag::INVENTORY_ID, 0);
            assert(tag::tag_id(t[k]) == tag::INVENTORY_ID);
            assert forall|j: int| 0 <= j < t.len() implies tag::tag_id(#[trigger] t[j]) == tag::tag_id(old_tags[j]) by {}
            assert forall|id: u16| #[trigger] ch.spec_has(id) == before.objs()[ch_oid].spec_has(id) by {
                object::lemma_same_ids_find(t, old_tags, id, 0);
            }
            object::lemma_same_ids_find(t, old_tags, tag::INVENTORY_ID, 0);
            object::lemma_find_id(t, tag::INVENTORY_ID, 0);
        }
        let _ = self.objects.insert(ch_oid, ch);
        proof {
            let idx = index as int;
            lemma_take_out(before.cells(), l, idx);
            assert(cell_ok(before.objs(), c));
            let nc = c.remove(idx);
            let objs = self.objs();
            assert(self.objs().dom() =~= before.objs().dom());
            assert forall|k: Oid| #[trigger] objs.contains_key(k) implies forall|id: u16|
                #[trigger] objs[k].spec_has(id) == before.objs()[k].spec_has(id) by {
                if k == ch_oid {
                    assert(forall|id: u16| #[trigger] ch.spec_has(id) == before.objs()[ch_oid].spec_has(id));
                }
            }
            assert(idx < c.len() - 1) by {
                if idx == c.len() - 1 {
                    assert(before.objs()[c.last()].spec_has(TERRAIN_ID));
                }
            }
            assert forall|k: (i32, i32)| #[trigger] self.cells().contains_key(k) implies cell_ok(
                objs,
                self.cells()[k],
            ) by {
                let d = self.cells()[k];
                if k != l {
                    assert(cell_ok(before.objs(), d));
                }
                assert forall|i: int| 0 <= i < d.len() implies objs.contains_key(#[trigger] d[i])
                    && (forall|id: u16| #[trigger] objs[d[i]].spec_has(id) == before.objs()[d[i]].spec_has(id)) by {
                    if k == l {
                        let oi = if i >= idx { i + 1 } else { i };
                        assert(d[i] == c[oi]);
                    }
                    assert(before.objs().contains_key(d[i]));
                }
                if k == l {
                    assert(nc.last() == c.last());
                    assert forall|i: int| 0 <= i < nc.len() - 1 implies !objs[#[trigger] nc[i]].spec_has(TERRAIN_ID) by {
                        let oi = if i >= idx { i + 1 } else { i };
                        assert(nc[i] == c[oi]);
                    }
                    assert forall|i: int| 0 < i < nc.len() implies !objs[#[trigger] nc[i]].spec_has(CHARACTER_ID) by {
                        let oi = if i >= idx { i + 1 } else { i };
                        assert(nc[i] == c[oi]);
                    }
                    assert forall|i: int| 0 <= i < nc.len() implies (objs[#[trigger] nc[i]].spec_has(TERRAIN_ID)
                        ==> !objs[nc[i]].spec_has(CHARACTER_ID)) by {
                        let oi = if i >= idx { i + 1 } else { i };
                        assert(nc[i] == c[oi]);
                    }
                }
            }
            let p = (self.spec_player_loc().x, self.spec_player_loc().y);
            assert(before.cells()[p].contains(Oid { value: 0 }));
            if p == l {
                let j = choose|j: int| 0 <= j < c.len() && c[j] == Oid { value: 0 };
                assert(j != idx);
                if j < idx {
                    assert(nc[j] == c[j]);
                } else {
                    assert(nc[j - 1] == c[j]);
                }
            }
            assert(objs[self.default_oid()].spec_has(TERRAIN_ID) == before.objs()[self.default_oid()].spec_has(TERRAIN_ID));
            assert(objs[self.default_oid()].spec_has(PLAYER_ID) == before.objs()[self.default_oid()].spec_has(PLAYER_ID));
            assert(objs[self.default_oid()].spec_has(CHARACTER_ID) == before.objs()[self.default_oid()].spec_has(CHARACTER_ID));
        }
    }

    /// The topmost object at the location with a tag of the id, as `get` finds it.
    pub open spec fn spec_get(&self, loc: Point, id: u16) -> Option<Oid> {
        let oids = self.cells()[(loc.x, loc.y)];
        let i = top_with(self.objs(), oids, id, oids.len() - 1);
        if self.cells().contains_key((loc.x, loc.y)) && i >= 0 {
            Some(oids[i])
        } else if self.objs()[self.default_oid()].spec_has(id) {
            Some(self.default_oid())
        } else {
            None
        }
    }

    /// The checks of a cell: layered properly, with every object following the object
    /// rules.
    pub open spec fn cell_checks(&self, oids: Seq<Oid>) -> bool {
        &&& cell_ok(self.objs(), oids)
        &&& forall|i: int| 0 <= i < oids.len() ==> self.objs()[#[trigger] oids[i]].wf()
    }

    /// Whether the cell's ids are layered properly and their objects follow the object
    /// rules.
    fn cell_invariant(&self, oids: &Vec<Oid>) -> (ok: bool)
        ensures
            ok == self.cell_checks(oids@),
    {
        let n = oids.len();
        if n == 0 {
            return false;
        }
        let mut i: usize = 0;
        while i < n
            invariant
                n == oids@.len(),
                0 < n,
                i <= n,
                forall|j: int| 0 <= j < i ==> self.objs().contains_key(#[trigger] oids@[j]),
                forall|j: int| 0 <= j < i ==> self.objs()[#[trigger] oids@[j]].wf(),
                forall|j: int| 0 <= j < i && j < n - 1 ==> !self.objs()[#[trigger] oids@[j]].spec_has(TERRAIN_ID),
                forall|j: int| 0 < j < i ==> !self.objs()[#[trigger] oids@[j]].spec_has(CHARACTER_ID),
                forall|j: int| 0 <= j < i ==> (self.objs()[#[trigger] oids@[j]].spec_has(TERRAIN_ID)
                    ==> !self.objs()[oids@[j]].spec_has(CHARACTER_ID)),
                i == n ==> self.objs()[oids@[n - 1]].spec_has(TERRAIN_ID),
            decreases n - i,
        {
            let obj = match self.objects.get(oids[i]) {
                Some(obj) => obj,
                None => {
                    return false;
                },
            };
            if !obj.check_invariant() {
                return false;
            }
            let terrain = obj.has(Tid(TERRAIN_ID));
            if i + 1 < n && terrain {
                return false;
            }
            if i + 1 == n && !terrain {
                return false;
            }
            if i > 0 && obj.has(Tid(CHARACTER_ID)) {
                return false;
            }
            i = i + 1;
        }
        true
    }

    /// The checks made after each change at the location: the next id is free, there is one
    /// default object, a character at the location is on terrain it can be in, the player
    /// exists and stands in its cell, and the location's cell passes the cell checks.
    pub open spec fn cheap_checks(&self, loc: Point) -> bool {
        &&& !self.objs().contains_key(Oid { value: self.spec_next_id() })
        &&& self.default_oids().len() == 1
        &&& self.spec_get(loc, CHARACTER_ID) matches Some(ch) ==> (self.spec_get(loc, TERRAIN_ID) matches Some(
            t,
        ) && object::terrain_of(self.objs()[t].spec_tags()) matches Some(tt)
            && object::impassible_text(self.objs()[t].spec_has(tag::CAN_OPEN_DOOR_ID), tt) is None)
        &&& self.objs().contains_key(Oid { value: 0 })
        &&& self.cells().contains_key((self.spec_player_loc().x, self.spec_player_loc().y))
        &&& self.cells()[(self.spec_player_loc().x, self.spec_player_loc().y)].contains(Oid { value: 0 })
        &&& self.cells().contains_key((loc.x, loc.y))
        &&& self.cell_checks(self.cells()[(loc.x, loc.y)])
    }

    /// Whether the checks made after each change at the location hold.
    pub fn cheap_invariants(&self, loc: Point) -> (ok: bool)
        requires
            self.default_oids().len() == 1 ==> self.objs().contains_key(self.default_oid()),
            forall|l: (i32, i32)| #[trigger] self.cells().contains_key(l) ==> forall|i: int|
                0 <= i < self.cells()[l].len() ==> self.objs().contains_key(#[trigger] self.cells()[l][i]),
        ensures
            ok == self.cheap_checks(loc),
    {
        if self.objects.contains_key(Oid::without_tag(self.next_id)) {
            return false;
        }
        if self.default_cell.len() != 1 {
            return false;
        }
        if let Some((_, ch)) = self.get_checked(loc, Tid(CHARACTER_ID)) {
            match self.get_checked(loc, Tid(TERRAIN_ID)) {
                Some((_, terrain)) => {
                    if terrain.terrain_value().is_none() {
                        return false;
                    }
                    if ch.impassible_terrain(terrain).is_some() {
                        return false;
                    }
                },
                None => {
                    return false;
                },
            }
        }
        if !self.objects.contains_key(Oid::without_tag(0)) {
            return false;
        }
        let oids = match self.cells.get(self.player_loc) {
            Some(oids) => oids,
            None => {
                return false;
            },
        };
        match position(oids, Oid::without_tag(0)) {
            Some(_) => {},
            None => {
                proof {
                    lemma_index_of(oids@, Oid { value: 0 }, 0);
                }
                return false;
            },
        }
        proof {
            lemma_index_of(oids@, Oid { value: 0 }, 0);
        }
        let oids = match self.cells.get(loc) {
            Some(oids) => oids,
            None => {
                return false;
            },
        };
        self.cell_invariant(oids)
    }

    /// `get` for a model whose cell ids all exist and that has one default object.
    fn get_checked(&self, loc: Point, tag: Tid) -> (r: Option<(Oid, &Object)>)
        requires
            self.default_oids().len() == 1,
            self.objs().contains_key(self.default_oid()),
            forall|l: (i32, i32)| #[trigger] self.cells().contains_key(l) ==> forall|i: int|
                0 <= i < self.cells()[l].len() ==> self.objs().contains_key(#[trigger] self.cells()[l][i]),
        ensures
            match r {
                Some((oid, obj)) => self.spec_get(loc, tag.0) == Some(oid) && *obj == self.objs()[oid],
                None => self.spec_get(loc, tag.0) is None,
            },
    {
        if let Some(oids) = self.cells.get(loc) {
            let ghost l = (loc.x, loc.y);
            let mut i = oids.len();
            while i > 0
                invariant
                    i <= oids@.len(),
                    oids@ == self.cells()[l],
                    l == (loc.x, loc.y),
                    self.cells().contains_key(l),
                    forall|j: int| 0 <= j < oids@.len() ==> self.objs().contains_key(#[trigger] oids@[j]),
                    top_with(self.objs(), oids@, tag.0, oids@.len() - 1) == top_with(
                        self.objs(),
                        oids@,
                        tag.0,
                        i - 1,
                    ),
                decreases i,
            {
                let oid = oids[i - 1];
                let obj = self.objects.get(oid).unwrap();
                if obj.has(tag) {
                    return Some((oid, obj));
                }
                i = i - 1;
            }
        }
        let oid = self.default_cell[0];
        let default = self.objects.get(oid).unwrap();
        if default.has(tag) {
            Some((oid, default))
        } else {
            None
        }
    }

    pub fn player_loc(&self) -> (loc: Point)
        ensures
            loc == self.spec_player_loc(),
    {
        self.player_loc
    }

    /// The topmost object at the location with a tag of the id: in the cell, or else the
    /// default object if it has such a tag.
    pub fn get(&self, loc: Point, tag: Tid) -> (r: Option<(Oid, &Object)>)
        requires
            self.wf(),
        ensures
            ({
                let oids = self.cells()[(loc.x, loc.y)];
                let i = top_with(self.objs(), oids, tag.0, oids.len() - 1);
                if self.cells().contains_key((loc.x, loc.y)) && i >= 0 {
                    r matches Some((oid, obj)) && oid == oids[i] && *obj == self.objs()[oid]
                } else if self.objs()[self.default_oid()].spec_has(tag.0) {
                    r matches Some((oid, obj)) && oid == self.default_oid() && *obj
                        == self.objs()[oid]
                } else {
                    r is None
                }
            }),
    {
        if let Some(oids) = self.cells.get(loc) {
            let ghost l = (loc.x, loc.y);
            proof {
                assert(cell_ok(self.objs(), self.cells()[l]));
            }
            let mut i = oids.len();
            while i > 0
                invariant
                    i <= oids@.len(),
                    oids@ == self.cells()[l],
                    l == (loc.x, loc.y),
                    self.cells().contains_key(l),
                    cell_ok(self.objs(), oids@),
                    top_with(self.objs(), oids@, tag.0, oids@.len() - 1) == top_with(
                        self.objs(),
                        oids@,
                        tag.0,
                        i - 1,
                    ),
                decreases i,
            {
                let oid = oids[i - 1];
                let obj = self.objects.get(oid).unwrap();
                if obj.has(tag) {
                    return Some((oid, obj));
                }
                i = i - 1;
            }
        }
        let oid = self.default_cell[0];
        let default = self.objects.get(oid).unwrap();
        if default.has(tag) {
            Some((oid, default))
        } else {
            None
        }
    }

    /// Typically this will be a terrain object: the cell's last object, which the model's
    /// layering makes its terrain, or the default object outside the map.
    pub fn get_bottom(&self, loc: Point) -> (r: (Oid, &Object))
        requires
            self.wf(),
        ensures
            r.0 == self.cell_at(loc).last(),
            *r.1 == self.objs()[r.0],
            r.1.spec_has(TERRAIN_ID),
    {
        if let Some(oids) = self.cells.get(loc) {
            proof {
                assert(cell_ok(self.objs(), self.cells()[(loc.x, loc.y)]));
            }
            let oid = oids[oids.len() - 1];
            let obj = self.objects.get(oid).unwrap();
            (oid, obj)
        } else {
            let oid = self.default_cell[0];
            let default = self.objects.get(oid).unwrap();
            (oid, default)
        }
    }

    /// Character, item, door, or if all else fails terrain: the cell's first object, which
    /// the model's layering makes its character if it has one and its terrain only when
    /// nothing lies on it, or the default object outside the map.
    pub fn get_top(&self, loc: Point) -> (r: (Oid, &Object))
        requires
            self.wf(),
        ensures
            r.0 == self.cell_at(loc)[0],
            *r.1 == self.objs()[r.0],
            (exists|i: int| 0 <= i < self.cell_at(loc).len() && self.objs()[#[trigger] self.cell_at(loc)[i]].spec_has(CHARACTER_ID))
                ==> r.1.spec_has(CHARACTER_ID),
            r.1.spec_has(TERRAIN_ID) ==> self.cell_at(loc).len() == 1,
    {
        if let Some(oids) = self.cells.get(loc) {
            proof {
                assert(cell_ok(self.objs(), self.cells()[(loc.x, loc.y)]));
            }
            let oid = oids[0];
            let obj = self.objects.get(oid).unwrap();
            (oid, obj)
        } else {
            let oid = self.default_cell[0];
            let default = self.objects.get(oid).unwrap();
            (oid, default)
        }
    }

    /// The ids at the location.
    pub fn cell(&self, loc: Point) -> (oids: &Vec<Oid>)
        ensures
            oids@ == self.cell_at(loc),
    {
        if let Some(oids) = self.cells.get(loc) {
            oids
        } else {
            &self.default_cell
        }
    }

    /// The object with the id, which must exist.
    pub fn obj(&self, oid: Oid) -> (obj: &Object)
        requires
            self.objs().contains_key(oid),
        ensures
            *obj == self.objs()[oid],
    {
        self.objects.get(oid).unwrap()
    }

    /// Normally ids are guaranteed to exist but it is possible for objects to cache an id
    /// that later is destroyed.
    pub fn try_obj(&self, oid: Oid) -> (obj: Option<&Object>)
        ensures
            match obj {
                Some(o) => self.objs().contains_key(oid) && *o == self.objs()[oid],
                None => !self.objs().contains_key(oid),
            },
    {
        self.objects.get(oid)
    }
}

/// Every id in a cell is an existing object.
pub open spec fn cells_exist(objs: Map<Oid, Object>, cells: Map<(i32, i32), Seq<Oid>>) -> bool {
    forall|l: (i32, i32), i: int|
        cells.contains_key(l) && 0 <= i < cells[l].len() ==> objs.contains_key(#[trigger] cells[l][i])
}

impl ModelBuilder {
    pub closed spec fn objs(&self) -> Map<Oid, Object> {
        objects_of(self.objects)
    }

    pub closed spec fn cells(&self) -> Map<(i32, i32), Seq<Oid>> {
        cells_of(self.cells)
    }

    pub closed spec fn default_oids(&self) -> Seq<Oid> {
        self.default_cell@
    }

    pub closed spec fn spec_player_loc(&self) -> Point {
        self.player_loc
    }

    /// The ids at the location, or none if it is not a cell yet.
    pub open spec fn cell_or_empty(&self, loc: Point) -> Seq<Oid> {
        if self.cells().contains_key((loc.x, loc.y)) {
            self.cells()[(loc.x, loc.y)]
        } else {
            Seq::empty()
        }
    }

    pub fn new() -> (b: ModelBuilder)
        ensures
            b.objs().is_empty(),
            b.cells().is_empty(),
            b.default_oids().len() == 0,
            b.spec_player_loc() == (Point { x: 0, y: 0 }),
    {
        ModelBuilder {
            objects: ObjectMap::new(),
            cells: CellMap::new(),
            default_cell: Vec::new(),
            player_loc: Point::new(0, 0),
        }
    }

    /// The object used for locations that are not cells: a new terrain.
    pub fn set_default(&mut self, oid: Oid, obj: Object)
        requires
            !old(self).objs().contains_key(oid),
            obj.spec_has(TERRAIN_ID),
        ensures
            final(self).objs() == old(self).objs().insert(oid, obj),
            final(self).cells() == old(self).cells(),
            final(self).default_oids() == seq![oid],
            final(self).spec_player_loc() == old(self).spec_player_loc(),
    {
        let old = self.objects.insert(oid, obj);
        assert(old.is_none());
        let mut cell: Vec<Oid> = Vec::new();
        cell.push(oid);
        self.default_cell = cell;
    }

    /// Adds a new object that is neither a character nor a terrain: below the cell's
    /// terrain if it ends with one, else at the end.
    pub fn set_item(&mut self, loc: Point, oid: Oid, obj: Object)
        requires
            !obj.spec_has(CHARACTER_ID),
            !obj.spec_has(TERRAIN_ID),
            !old(self).objs().contains_key(oid),
            cells_exist(old(self).objs(), old(self).cells()),
        ensures
            cells_exist(final(self).objs(), final(self).cells()),
            final(self).objs() == old(self).objs().insert(oid, obj),
            ({
                let c = old(self).cell_or_empty(loc);
                let idx = if c.len() > 0 && old(self).objs()[c.last()].spec_has(TERRAIN_ID) {
                    c.len() - 1
                } else {
                    c.len() as int
                };
                final(self).cells() == old(self).cells().insert((loc.x, loc.y), c.insert(idx, oid))
            }),
            final(self).default_oids() == old(self).default_oids(),
            final(self).spec_player_loc() == old(self).spec_player_loc(),
    {
        let ghost before = *self;
        let old = self.objects.insert(oid, obj);
        assert(old.is_none());
        let mut oids = match self.cells.remove(loc) {
            Some(oids) => oids,
            None => Vec::new(),
        };
        let index = if oids.len() > 0 && self.objects.get(oids[oids.len() - 1]).unwrap().has(
            Tid(TERRAIN_ID),
        ) {
            oids.len() - 1
        } else {
            oids.len()
        };
        oids.insert(index, oid);
        self.cells.insert(loc, oids);
        proof {
            lemma_builder_insert_exists(before.objs(), before.cells(), (loc.x, loc.y), index as int, oid, obj);
        }
    }

    /// Adds a new character other than the player, first in the cell, which must not
    /// already have a character first.
    pub fn set_npc(&mut self, loc: Point, oid: Oid, obj: Object)
        requires
            obj.spec_has(CHARACTER_ID),
            !obj.spec_has(PLAYER_ID),
            !old(self).objs().contains_key(oid),
            cells_exist(old(self).objs(), old(self).cells()),
            old(self).cell_or_empty(loc).len() > 0 ==> !old(self).objs()[old(self).cell_or_empty(
                loc,
            )[0]].spec_has(CHARACTER_ID),
        ensures
            cells_exist(final(self).objs(), final(self).cells()),
            final(self).objs() == old(self).objs().insert(oid, obj),
            final(self).cells() == old(self).cells().insert(
                (loc.x, loc.y),
                old(self).cell_or_empty(loc).insert(0, oid),
            ),
            final(self).default_oids() == old(self).default_oids(),
            final(self).spec_player_loc() == old(self).spec_player_loc(),
    {
        let ghost before = *self;
        let mut oids = match self.cells.remove(loc) {
            Some(oids) => oids,
            None => Vec::new(),
        };
        let old = self.objects.insert(oid, obj);
        assert(old.is_none());
        oids.insert(0, oid);
        self.cells.insert(loc, oids);
        proof {
            lemma_builder_insert_exists(before.objs(), before.cells(), (loc.x, loc.y), 0, oid, obj);
        }
    }

    /// Adds the player (id 0) first in the cell, which must not already have a character
    /// first.
    pub fn set_player(&mut self, loc: Point, obj: Object)
        requires
            obj.spec_has(PLAYER_ID),
            !old(self).objs().contains_key(Oid { value: 0 }),
            cells_exist(old(self).objs(), old(self).cells()),
            old(self).cell_or_empty(loc).len() > 0 ==> !old(self).objs()[old(self).cell_or_empty(
                loc,
            )[0]].spec_has(CHARACTER_ID),
        ensures
            cells_exist(final(self).objs(), final(self).cells()),
            final(self).objs() == old(self).objs().insert(Oid { value: 0 }, obj),
            final(self).cells() == old(self).cells().insert(
                (loc.x, loc.y),
                old(self).cell_or_empty(loc).insert(0, Oid { value: 0 }),
            ),
            final(self).default_oids() == old(self).default_oids(),
            final(self).spec_player_loc() == loc,
    {
        let ghost before = *self;
        let oid = Oid::without_tag(0);
        let mut oids = match self.cells.remove(loc) {
            Some(oids) => oids,
            None => Vec::new(),
        };
        let old = self.objects.insert(oid, obj);
        assert(old.is_none());
        oids.insert(0, oid);
        self.cells.insert(loc, oids);
        self.player_loc = loc;
        proof {
            lemma_builder_insert_exists(before.objs(), before.cells(), (loc.x, loc.y), 0, oid, obj);
        }
    }

    /// Adds a new terrain to the cell: in place of the cell's last object if it has one
    /// (builders may overwrite terrain), else as its only object.
    pub fn set_terrain(&mut self, loc: Point, oid: Oid, obj: Object)
        requires
            obj.spec_has(TERRAIN_ID),
            !old(self).objs().contains_key(oid),
            cells_exist(old(self).objs(), old(self).cells()),
        ensures
            cells_exist(final(self).objs(), final(self).cells()),
            final(self).objs() == old(self).objs().insert(oid, obj),
            ({
                let c = old(self).cell_or_empty(loc);
                final(self).cells() == old(self).cells().insert(
                    (loc.x, loc.y),
                    if c.len() > 0 {
                        c.update(c.len() - 1, oid)
                    } else {
                        seq![oid]
                    },
                )
            }),
            final(self).default_oids() == old(self).default_oids(),
            final(self).spec_player_loc() == old(self).spec_player_loc(),
    {
        let ghost before = *self;
        let old = self.objects.insert(oid, obj);
        assert(old.is_none());
        let mut oids = match self.cells.remove(loc) {
            Some(oids) => oids,
            None => Vec::new(),
        };
        let ghost c = before.cell_or_empty(loc);
        if oids.len() > 0 {
            let last = oids.len() - 1;
            oids.set(last, oid);
        } else {
            oids.push(oid);
        }
        assert(oids@ =~= if c.len() > 0 {
            c.update(c.len() - 1, oid)
        } else {
            seq![oid]
        });
        self.cells.insert(loc, oids);
        proof {
            let objs = self.objs();
            assert forall|l: (i32, i32), i: int|
                self.cells().contains_key(l) && 0 <= i < self.cells()[l].len() implies objs.contains_key(
                #[trigger] self.cells()[l][i],
            ) by {
                if l != (loc.x, loc.y) || self.cells()[l][i] != oid {
                    if l == (loc.x, loc.y) {
                        assert(self.cells()[l][i] == before.cells()[l][i]);
                    }
                }
            }
        }
    }

    /// What a model made from the builder needs: at least one cell besides the player's,
    /// the player's cell, one default object, and the player.
    pub open spec fn valid(&self) -> bool {
        &&& self.cells().dom().len() > 1
        &&& self.cells().contains_key((self.spec_player_loc().x, self.spec_player_loc().y))
        &&& self.default_oids().len() == 1
        &&& self.objs().contains_key(self.default_oids()[0])
        &&& self.objs().contains_key(Oid { value: 0 })
    }

    /// Ensures that all the setter methods have been called.
    fn validate(&self) -> (ok: bool)
        ensures
            ok == self.valid(),
    {
        if self.cells.len() <= 1 {
            return false;
        }
        if !self.cells.contains_key(self.player_loc) {
            return false;
        }
        if self.default_cell.len() != 1 {
            return false;
        }
        if !self.objects.contains_key(self.default_cell[0]) {
            return false;
        }
        self.objects.contains_key(Oid::without_tag(0))
    }
}

/// Putting an existing object's id into a cell keeps every cell id an existing object.
proof fn lemma_builder_insert_exists(
    objs: Map<Oid, Object>,
    cells: Map<(i32, i32), Seq<Oid>>,
    l: (i32, i32),
    idx: int,
    oid: Oid,
    obj: Object,
)
    requires
        cells_exist(objs, cells),
        0 <= idx <= (if cells.contains_key(l) { cells[l].len() as int } else { 0 }),
    ensures
        cells_exist(
            objs.insert(oid, obj),
            cells.insert(
                l,
                (if cells.contains_key(l) { cells[l] } else { Seq::empty() }).insert(idx, oid),
            ),
        ),
{
    let c = if cells.contains_key(l) { cells[l] } else { Seq::<Oid>::empty() };
    let after = cells.insert(l, c.insert(idx, oid));
    assert forall|k: (i32, i32), i: int|
        after.contains_key(k) && 0 <= i < after[k].len() implies objs.insert(oid, obj).contains_key(
        #[trigger] after[k][i],
    ) by {
        if k == l && i != idx {
            let oi = if i < idx { i } else { i - 1 };
            assert(after[k][i] == c[oi]);
        }
    }
}

impl Model {
    /// A model made from a builder whose cells are layered properly, with each object at
    /// one place, the player in its cell and a default object that is a terrain and not a
    /// character.
    pub fn from_builder(builder: ModelBuilder) -> (m: Model)
        requires
            builder.valid(),
            builder.cells()[(builder.spec_player_loc().x, builder.spec_player_loc().y)].contains(
                Oid { value: 0 },
            ),
            builder.objs()[builder.default_oids()[0]].spec_has(TERRAIN_ID),
            !builder.objs()[builder.default_oids()[0]].spec_has(PLAYER_ID),
            !builder.objs()[builder.default_oids()[0]].spec_has(CHARACTER_ID),
            cells_ok(builder.objs(), builder.cells()),
            placed_once(builder.cells()),
        ensures
            m.wf(),
            m.objs() == builder.objs(),
            m.cells() == builder.cells(),
            m.default_oids() == builder.default_oids(),
            m.spec_player_loc() == builder.spec_player_loc(),
            m.spec_next_id() == 1,
    {
        Model {
            objects: builder.objects,
            cells: builder.cells,
            default_cell: builder.default_cell,
            player_loc: builder.player_loc,
            next_id: 1,
        }
    }

    /// A model made from the builder, or `None` when it is missing one of the setter calls
    /// (a cell besides the player's, the player's cell, the default object, the player).
    pub fn try_from_builder(builder: ModelBuilder) -> (m: Option<Model>)
        requires
            builder.valid() ==> {
                &&& builder.cells()[(builder.spec_player_loc().x, builder.spec_player_loc().y)].contains(
                    Oid { value: 0 },
                )
                &&& builder.objs()[builder.default_oids()[0]].spec_has(TERRAIN_ID)
                &&& !builder.objs()[builder.default_oids()[0]].spec_has(PLAYER_ID)
                &&& !builder.objs()[builder.default_oids()[0]].spec_has(CHARACTER_ID)
                &&& cells_ok(builder.objs(), builder.cells())
                &&& placed_once(builder.cells())
            },
        ensures
            m is Some <==> builder.valid(),
            m matches Some(model) ==> model.wf() && model.objs() == builder.objs() && model.cells()
                == builder.cells(),
    {
        if builder.validate() {
            Some(Model::from_builder(builder))
        } else {
            None
        }
    }

    /// The ids at the location from the topmost down, each with its object.
    pub fn cell_iter(&self, loc: Point) -> (r: Vec<(Oid, &Object)>)
        requires
            self.wf(),
        ensures
            r@.len() == (if self.cells().contains_key((loc.x, loc.y)) { self.cells()[(loc.x, loc.y)].len() } else { 0 }),
            forall|i: int| 0 <= i < r@.len() ==> {
                let oids = self.cells()[(loc.x, loc.y)];
                &&& (#[trigger] r@[i]).0 == oids[oids.len() - 1 - i]
                &&& *r@[i].1 == self.objs()[r@[i].0]
            },
    {
        let mut r: Vec<(Oid, &Object)> = Vec::new();
        if let Some(oids) = self.cells.get(loc) {
            let ghost l = (loc.x, loc.y);
            proof {
                assert(cell_ok(self.objs(), self.cells()[l]));
            }
            let mut i = oids.len();
            while i > 0
                invariant
                    i <= oids@.len(),
                    oids@ == self.cells()[l],
                    l == (loc.x, loc.y),
                    cell_ok(self.objs(), oids@),
                    r@.len() == oids@.len() - i,
                    forall|j: int| 0 <= j < r@.len() ==> {
                        &&& (#[trigger] r@[j]).0 == oids@[oids@.len() - 1 - j]
                        &&& *r@[j].1 == self.objs()[r@[j].0]
                    },
                decreases i,
            {
                let oid = oids[i - 1];
                let obj = self.objects.get(oid).unwrap();
                r.push((oid, obj));
                i = i - 1;
            }
        }
        r
    }
}


impl Model {
    /// The equipment slots of the object with the id (none if it has no equipment).
    pub open spec fn slots(&self, k: Oid) -> Seq<Option<Oid>> {
        match object::equipped_of(self.objs()[k].spec_tags()) {
            Some(v) => v,
            None => Seq::empty(),
        }
    }

    /// The inventory of the object with the id (empty if it has none).
    pub open spec fn items(&self, k: Oid) -> Seq<Oid> {
        match object::inventory_of(self.objs()[k].spec_tags()) {
            Some(v) => v,
            None => Seq::empty(),
        }
    }

    /// What the object with the id holds at index `j` of its slots (`s == 0`) or of its
    /// inventory (`s == 1`).
    pub open spec fn held_at(&self, k: Oid, s: int, j: int) -> Option<Oid> {
        if s == 0 && 0 <= j < self.slots(k).len() {
            self.slots(k)[j]
        } else if s == 1 && 0 <= j < self.items(k).len() {
            Some(self.items(k)[j])
        } else {
            None
        }
    }

    /// The id is equipped or carried by an object.
    pub open spec fn held(&self, o: Oid) -> bool {
        exists|k: Oid, s: int, j: int| self.objs().contains_key(k) && #[trigger] self.held_at(k, s, j) == Some(o)
    }

    /// The ids that objects equip or carry.
    pub open spec fn held_ids(&self) -> Set<Oid> {
        Set::new(|o: Oid| self.held(o))
    }

    /// Every equipped or carried id exists and is held in one place only.
    pub open spec fn holdings_ok(&self) -> bool {
        &&& forall|k: Oid, s: int, j: int|
            self.objs().contains_key(k) && (#[trigger] self.held_at(k, s, j)) is Some ==> self.objs().contains_key(
                self.held_at(k, s, j)->0,
            )
        &&& forall|k1: Oid, s1: int, j1: int, k2: Oid, s2: int, j2: int|
            self.objs().contains_key(k1) && self.objs().contains_key(k2) && (#[trigger] self.held_at(k1, s1, j1)) is Some
                && (#[trigger] self.held_at(k2, s2, j2)) is Some && (k1 != k2 || s1 != s2 || j1 != j2)
                ==> self.held_at(k1, s1, j1) != self.held_at(k2, s2, j2)
    }

    /// The ids on the map.
    pub open spec fn map_ids(&self) -> Set<Oid> {
        Set::new(
            |o: Oid|
                exists|l: (i32, i32), i: int|
                    self.cells().contains_key(l) && 0 <= i < self.cells()[l].len() && #[trigger] self.cells()[l][i] == o,
        )
    }

    /// The whole-level checks: the held ids exist and are each held once; each id on the
    /// map is at one place only, exists and is not held; there are as many objects as ids
    /// held, on the map and in the default cell; the default cell's ids exist; and every
    /// cell passes the cell checks.
    pub open spec fn expensive_checks(&self) -> bool {
        &&& self.holdings_ok()
        &&& placed_once(self.cells())
        &&& forall|l: (i32, i32), i: int|
            #![trigger self.cells()[l][i]]
            self.cells().contains_key(l) && 0 <= i < self.cells()[l].len() ==> self.objs().contains_key(
                self.cells()[l][i],
            ) && !self.held(self.cells()[l][i])
        &&& self.held_ids().len() + self.map_ids().len() + self.default_oids().len() == self.objs().dom().len()
        &&& forall|i: int| 0 <= i < self.default_oids().len() ==> self.objs().contains_key(#[trigger] self.default_oids()[i])
        &&& forall|l: (i32, i32)| #[trigger] self.cells().contains_key(l) ==> self.cell_checks(self.cells()[l])
    }

    /// Position `i` of the cell at `ls[x]` has been gathered, the cells before `ls[a]`
    /// whole and that one up to `b`.
    spec fn gathered(&self, ls: Seq<Point>, a: int, b: int, x: int, i: int) -> bool {
        &&& 0 <= x < ls.len()
        &&& 0 <= i < self.cells()[key(ls[x])].len()
        &&& (x < a || (x == a && i < b))
    }

    spec fn id_at(&self, ls: Seq<Point>, x: int, i: int) -> Oid {
        self.cells()[key(ls[x])][i]
    }

    /// The gathered ids are those of the gathered positions, each at one position only,
    /// existing and not held.
    spec fn gather_ok(&self, ls: Seq<Point>, a: int, b: int, m: Map<Oid, Point>) -> bool {
        &&& forall|o: Oid| #[trigger] m.contains_key(o) <==> exists|x: int, i: int|
            self.gathered(ls, a, b, x, i) && #[trigger] self.id_at(ls, x, i) == o
        &&& forall|x1: int, i1: int, x2: int, i2: int|
            #![trigger self.id_at(ls, x1, i1), self.id_at(ls, x2, i2)]
            self.gathered(ls, a, b, x1, i1) && self.gathered(ls, a, b, x2, i2) && self.id_at(ls, x1, i1)
                == self.id_at(ls, x2, i2) ==> x1 == x2 && i1 == i2
        &&& forall|x: int, i: int|
            #![trigger self.id_at(ls, x, i)]
            self.gathered(ls, a, b, x, i) ==> self.objs().contains_key(self.id_at(ls, x, i)) && !self.held(
                self.id_at(ls, x, i),
            )
    }

    /// The places of the holdings of `ks` that come before index `b` of list `t` of
    /// `ks[a]`.
    spec fn in_held_region(&self, ks: Seq<Oid>, a: int, t: int, b: int, x: int, s: int, j: int) -> bool {
        &&& 0 <= x < ks.len()
        &&& self.held_at(ks[x], s, j) is Some
        &&& (x < a || (x == a && (s < t || (s == t && j < b))))
    }

    /// Puts the equipped and carried ids in the set, as long as each exists and none is met
    /// twice.
    fn gather_held(&self, set: &mut IdSet) -> (ok: bool)
        requires
            ids_of(*old(set)) == Set::<Oid>::empty(),
        ensures
            ok == self.holdings_ok(),
            ok ==> ids_of(*final(set)) == self.held_ids(),
            ids_of(*final(set)).finite(),
    {
        let ids = self.objects.ids();
        let ghost ks = ids@;
        let mut a: usize = 0;
        proof {
            assert(ids_of(*set) =~= Set::<Oid>::empty());
        }
        while a < ids.len()
            invariant
                ks == ids@,
                a <= ks.len(),
                forall|k: Oid| self.objs().contains_key(k) <==> ks.contains(k),
                ks.no_duplicates(),
                ids_of(*set).finite(),
                forall|x: int, s: int, j: int|
                    self.in_held_region(ks, a as int, 0, 0, x, s, j) ==> self.objs().contains_key(
                        (#[trigger] self.held_at(ks[x], s, j))->0,
                    ),
                forall|x1: int, s1: int, j1: int, x2: int, s2: int, j2: int|
                    self.in_held_region(ks, a as int, 0, 0, x1, s1, j1) && self.in_held_region(
                        ks,
                        a as int,
                        0,
                        0,
                        x2,
                        s2,
                        j2,
                    ) && (x1 != x2 || s1 != s2 || j1 != j2) ==> #[trigger] self.held_at(ks[x1], s1, j1)
                        != #[trigger] self.held_at(ks[x2], s2, j2),
                forall|o: Oid|
                    ids_of(*set).contains(o) <==> exists|x: int, s: int, j: int|
                        self.in_held_region(ks, a as int, 0, 0, x, s, j) && #[trigger] self.held_at(ks[x], s, j)
                            == Some(o),
            decreases ks.len() - a,
        {
            let k = ids[a];
            proof {
                assert(ks.contains(k));
            }
            let obj = self.objects.get(k).unwrap();
            if !self.gather_list(obj, &mut *set, Ghost(ks), a, 0) {
                return false;
            }
            if !self.gather_list(obj, &mut *set, Ghost(ks), a, 1) {
                return false;
            }
            proof {
                assert forall|x: int, s: int, j: int|
                    #![trigger self.in_held_region(ks, a as int, 2, 0, x, s, j)]
                    #![trigger self.in_held_region(ks, a + 1, 0, 0, x, s, j)]
                    self.in_held_region(ks, a as int, 2, 0, x, s, j) == self.in_held_region(ks, a + 1, 0, 0, x, s, j) by {}
            }
            a = a + 1;
        }
        proof {
            assert forall|k: Oid, s: int, j: int|
                self.objs().contains_key(k) && (#[trigger] self.held_at(k, s, j)) is Some implies self.in_held_region(
                ks,
                a as int,
                0,
                0,
                ks.index_of(k),
                s,
                j,
            ) && ks[ks.index_of(k)] == k by {
                assert(ks.contains(k));
            }
            assert forall|k1: Oid, s1: int, j1: int, k2: Oid, s2: int, j2: int|
                self.objs().contains_key(k1) && self.objs().contains_key(k2) && (#[trigger] self.held_at(k1, s1, j1)) is Some
                    && (#[trigger] self.held_at(k2, s2, j2)) is Some && (k1 != k2 || s1 != s2 || j1 != j2)
                    implies self.held_at(k1, s1, j1) != self.held_at(k2, s2, j2) by {
                assert(ks.contains(k1));
                assert(ks.contains(k2));
                let x1 = ks.index_of(k1);
                let x2 = ks.index_of(k2);
                assert(self.in_held_region(ks, a as int, 0, 0, x1, s1, j1));
                assert(self.in_held_region(ks, a as int, 0, 0, x2, s2, j2));
            }
            assert forall|o: Oid| ids_of(*set).contains(o) <==> self.held_ids().contains(o) by {
                if ids_of(*set).contains(o) {
                    let (x, s, j) = choose|x: int, s: int, j: int|
                        self.in_held_region(ks, a as int, 0, 0, x, s, j) && #[trigger] self.held_at(ks[x], s, j) == Some(o);
                    assert(ks.contains(ks[x]));
                    assert(self.objs().contains_key(ks[x]));
                    assert(self.held_at(ks[x], s, j) == Some(o));
                }
                if self.held(o) {
                    let (k, s, j) = choose|k: Oid, s: int, j: int|
                        self.objs().contains_key(k) && #[trigger] self.held_at(k, s, j) == Some(o);
                    assert(ks.contains(k));
                    assert(self.in_held_region(ks, a as int, 0, 0, ks.index_of(k), s, j));
                }
            }
            assert(ids_of(*set) =~= self.held_ids());
        }
        true
    }

    /// Puts the ids of list `t` (the slots, or the inventory) of `ks[a]` in the set, as long
    /// as each exists and none is met twice.
    fn gather_list(&self, obj: &Object, set: &mut IdSet, Ghost(ks): Ghost<Seq<Oid>>, a: usize, t: u8) -> (ok: bool)
        requires
            a < ks.len(),
            t <= 1,
            self.objs().contains_key(ks[a as int]),
            *obj == self.objs()[ks[a as int]],
            forall|k: Oid| self.objs().contains_key(k) <==> ks.contains(k),
            ks.no_duplicates(),
            ids_of(*old(set)).finite(),
            forall|x: int, s: int, j: int|
                self.in_held_region(ks, a as int, t as int, 0, x, s, j) ==> self.objs().contains_key(
                    (#[trigger] self.held_at(ks[x], s, j))->0,
                ),
            forall|x1: int, s1: int, j1: int, x2: int, s2: int, j2: int|
                self.in_held_region(ks, a as int, t as int, 0, x1, s1, j1) && self.in_held_region(
                    ks,
                    a as int,
                    t as int,
                    0,
                    x2,
                    s2,
                    j2,
                ) && (x1 != x2 || s1 != s2 || j1 != j2) ==> #[trigger] self.held_at(ks[x1], s1, j1)
                    != #[trigger] self.held_at(ks[x2], s2, j2),
            forall|o: Oid|
                ids_of(*old(set)).contains(o) <==> exists|x: int, s: int, j: int|
                    self.in_held_region(ks, a as int, t as int, 0, x, s, j) && #[trigger] self.held_at(ks[x], s, j)
                        == Some(o),
        ensures
            !ok ==> !self.holdings_ok(),
            ids_of(*final(set)).finite(),
            ok ==> forall|x: int, s: int, j: int|
                self.in_held_region(ks, a as int, t + 1, 0, x, s, j) ==> self.objs().contains_key(
                    (#[trigger] self.held_at(ks[x], s, j))->0,
                ),
            ok ==> forall|x1: int, s1: int, j1: int, x2: int, s2: int, j2: int|
                self.in_held_region(ks, a as int, t + 1, 0, x1, s1, j1) && self.in_held_region(
                    ks,
                    a as int,
                    t + 1,
                    0,
                    x2,
                    s2,
                    j2,
                ) && (x1 != x2 || s1 != s2 || j1 != j2) ==> #[trigger] self.held_at(ks[x1], s1, j1)
                    != #[trigger] self.held_at(ks[x2], s2, j2),
            ok ==> forall|o: Oid|
                ids_of(*final(set)).contains(o) <==> exists|x: int, s: int, j: int|
                    self.in_held_region(ks, a as int, t + 1, 0, x, s, j) && #[trigger] self.held_at(ks[x], s, j)
                        == Some(o),
    {
        let ghost k = ks[a as int];
        let list: Vec<Option<Oid>> = self.held_list(obj, t);
        let ghost tt = t as int;
        let mut b: usize = 0;
        while b < list.len()
            invariant
                a < ks.len(),
                t <= 1,
                tt == t as int,
                k == ks[a as int],
                self.objs().contains_key(k),
                forall|k2: Oid| self.objs().contains_key(k2) <==> ks.contains(k2),
                ks.no_duplicates(),
                forall|j: int| 0 <= j < list@.len() ==> #[trigger] list@[j] == self.held_at(k, tt, j),
                forall|j: int| self.held_at(k, tt, j) is Some ==> 0 <= j < list@.len(),
                b <= list@.len(),
                ids_of(*set).finite(),
                forall|x: int, s: int, j: int|
                    self.in_held_region(ks, a as int, tt, b as int, x, s, j) ==> self.objs().contains_key(
                        (#[trigger] self.held_at(ks[x], s, j))->0,
                    ),
                forall|x1: int, s1: int, j1: int, x2: int, s2: int, j2: int|
                    self.in_held_region(ks, a as int, tt, b as int, x1, s1, j1) && self.in_held_region(
                        ks,
                        a as int,
                        tt,
                        b as int,
                        x2,
                        s2,
                        j2,
                    ) && (x1 != x2 || s1 != s2 || j1 != j2) ==> #[trigger] self.held_at(ks[x1], s1, j1)
                        != #[trigger] self.held_at(ks[x2], s2, j2),
                forall|o: Oid|
                    ids_of(*set).contains(o) <==> exists|x: int, s: int, j: int|
                        self.in_held_region(ks, a as int, tt, b as int, x, s, j) && #[trigger] self.held_at(ks[x], s, j)
                            == Some(o),
            decreases list@.len() - b,
        {
            let ghost before = ids_of(*set);
            assert(list@[b as int] == self.held_at(k, tt, b as int));
            if let Some(o) = list[b] {
                if !set.insert(o) {
                    proof {
                        let (x, s, j) = choose|x: int, s: int, j: int|
                            self.in_held_region(ks, a as int, tt, b as int, x, s, j) && #[trigger] self.held_at(
                                ks[x],
                                s,
                                j,
                            ) == Some(o);
                        if x != a {
                            assert(ks[x] != ks[a as int]);
                        }
                        assert(ks.contains(ks[x]));
                        assert(self.objs().contains_key(ks[x]));
                        assert(self.held_at(ks[x], s, j) == self.held_at(k, tt, b as int));
                    }
                    return false;
                }
                if !self.objects.contains_key(o) {
                    proof {
                        assert(self.held_at(k, tt, b as int) is Some);
                    }
                    return false;
                }
                proof {
                    assert forall|x: int, s: int, j: int|
                        self.in_held_region(ks, a as int, tt, b + 1, x, s, j) implies self.objs().contains_key(
                        (#[trigger] self.held_at(ks[x], s, j))->0,
                    ) by {
                        if !(x == a && s == tt && j == b) {
                            assert(self.in_held_region(ks, a as int, tt, b as int, x, s, j));
                        }
                    }
                    assert forall|x1: int, s1: int, j1: int, x2: int, s2: int, j2: int|
                        self.in_held_region(ks, a as int, tt, b + 1, x1, s1, j1) && self.in_held_region(
                            ks,
                            a as int,
                            tt,
                            b + 1,
                            x2,
                            s2,
                            j2,
                        ) && (x1 != x2 || s1 != s2 || j1 != j2) implies #[trigger] self.held_at(ks[x1], s1, j1)
                        != #[trigger] self.held_at(ks[x2], s2, j2) by {
                        if x1 == a && s1 == tt && j1 == b {
                            assert(self.in_held_region(ks, a as int, tt, b as int, x2, s2, j2));
                            assert(before.contains(self.held_at(ks[x2], s2, j2)->0));
                        } else if x2 == a && s2 == tt && j2 == b {
                            assert(self.in_held_region(ks, a as int, tt, b as int, x1, s1, j1));
                            assert(before.contains(self.held_at(ks[x1], s1, j1)->0));
                        } else {
                            assert(self.in_held_region(ks, a as int, tt, b as int, x1, s1, j1));
                            assert(self.in_held_region(ks, a as int, tt, b as int, x2, s2, j2));
                        }
                    }
                    assert forall|o2: Oid|
                        ids_of(*set).contains(o2) <==> exists|x: int, s: int, j: int|
                            self.in_held_region(ks, a as int, tt, b + 1, x, s, j) && #[trigger] self.held_at(
                                ks[x],
                                s,
                                j,
                            ) == Some(o2) by {
                        if ids_of(*set).contains(o2) {
                            if o2 == o {
                                assert(self.in_held_region(ks, a as int, tt, b + 1, a as int, tt, b as int));
                            } else {
                                assert(before.contains(o2));
                                let (x, s, j) = choose|x: int, s: int, j: int|
                                    self.in_held_region(ks, a as int, tt, b as int, x, s, j) && #[trigger] self.held_at(
                                        ks[x],
                                        s,
                                        j,
                                    ) == Some(o2);
                                assert(self.in_held_region(ks, a as int, tt, b + 1, x, s, j));
                            }
                        }
                        if exists|x: int, s: int, j: int|
                            self.in_held_region(ks, a as int, tt, b + 1, x, s, j) && #[trigger] self.held_at(
                                ks[x],
                                s,
                                j,
                            ) == Some(o2) {
                            let (x, s, j) = choose|x: int, s: int, j: int|
                                self.in_held_region(ks, a as int, tt, b + 1, x, s, j) && #[trigger] self.held_at(
                                    ks[x],
                                    s,
                                    j,
                                ) == Some(o2);
                            if !(x == a && s == tt && j == b) {
                                assert(self.in_held_region(ks, a as int, tt, b as int, x, s, j));
                            }
                        }
                    }
                }
            } else {
                proof {
                    assert forall|x: int, s: int, j: int|
                        #![trigger self.in_held_region(ks, a as int, tt, b as int, x, s, j)]
                        #![trigger self.in_held_region(ks, a as int, tt, b + 1, x, s, j)]
                        self.in_held_region(ks, a as int, tt, b as int, x, s, j) == self.in_held_region(
                            ks,
                            a as int,
                            tt,
                            b + 1,
                            x,
                            s,
                            j,
                        ) by {}
                }
            }
            b = b + 1;
        }
        proof {
            assert forall|x: int, s: int, j: int|
                #![trigger self.in_held_region(ks, a as int, tt, b as int, x, s, j)]
                #![trigger self.in_held_region(ks, a as int, tt + 1, 0, x, s, j)]
                self.in_held_region(ks, a as int, tt, b as int, x, s, j) == self.in_held_region(
                    ks,
                    a as int,
                    tt + 1,
                    0,
                    x,
                    s,
                    j,
                ) by {}
        }
        true
    }

    /// The slots (`t == 0`) or the inventory (`t == 1`) of the object, as optional ids.
    fn held_list(&self, obj: &Object, t: u8) -> (list: Vec<Option<Oid>>)
        ensures
            forall|j: int| 0 <= j < list@.len() ==> #[trigger] list@[j] == (if t == 0 && 0 <= j < object::equipped_of(obj.spec_tags()).unwrap_or(Seq::empty()).len() { object::equipped_of(obj.spec_tags()).unwrap_or(Seq::empty())[j] } else if t == 1 && 0 <= j < object::inventory_of(obj.spec_tags()).unwrap_or(Seq::empty()).len() { Some(object::inventory_of(obj.spec_tags()).unwrap_or(Seq::empty())[j]) } else { None }),
            list@.len() == (if t == 0 { object::equipped_of(obj.spec_tags()).unwrap_or(Seq::empty()).len() } else if t == 1 { object::inventory_of(obj.spec_tags()).unwrap_or(Seq::empty()).len() } else { 0 }),
    {
        let mut list: Vec<Option<Oid>> = Vec::new();
        if t == 0 {
            if let Some(slots) = obj.equipped_value() {
                let mut j: usize = 0;
                while j < slots.len()
                    invariant
                        j <= slots@.len(),
                        list@ == slots@.subrange(0, j as int),
                    decreases slots@.len() - j,
                {
                    list.push(slots[j]);
                    assert(slots@.subrange(0, j + 1) =~= slots@.subrange(0, j as int).push(slots@[j as int]));
                    j = j + 1;
                }
            }
        } else if t == 1 {
            if let Some(items) = obj.inventory_value() {
                let mut j: usize = 0;
                while j < items.len()
                    invariant
                        j <= items@.len(),
                        list@.len() == j,
                        forall|i: int| 0 <= i < j ==> #[trigger] list@[i] == Some(items@[i]),
                    decreases items@.len() - j,
                {
                    list.push(Some(items[j]));
                    j = j + 1;
                }
            }
        }
        list
    }

    /// Gathers the ids of the map with their locations, as long as each is at one place
    /// only, exists and is not held.
    fn gather_level(&self, held: &IdSet, level: &mut LocIds) -> (ok: bool)
        requires
            loc_ids_of(*old(level)).is_empty(),
            ids_of(*held) == self.held_ids(),
        ensures
            ok == ({
                &&& placed_once(self.cells())
                &&& forall|l: (i32, i32), i: int|
                    #![trigger self.cells()[l][i]]
                    self.cells().contains_key(l) && 0 <= i < self.cells()[l].len() ==> self.objs().contains_key(
                        self.cells()[l][i],
                    ) && !self.held(self.cells()[l][i])
            }),
            ok ==> loc_ids_of(*final(level)).dom() == self.map_ids(),
            loc_ids_of(*final(level)).dom().finite(),
    {
        let locs = self.cells.locs();
        let ghost ls = locs@;
        let mut a: usize = 0;
        proof {
            assert(loc_ids_of(*level).dom() =~= Set::<Oid>::empty());
        }
        while a < locs.len()
            invariant
                ls == locs@,
                a <= ls.len(),
                forall|x: int| 0 <= x < ls.len() ==> self.cells().contains_key(key(#[trigger] ls[x])),
                forall|l: (i32, i32)| #[trigger] self.cells().contains_key(l) ==> exists|x: int|
                    0 <= x < ls.len() && (#[trigger] ls[x]).x == l.0 && ls[x].y == l.1,
                ls.no_duplicates(),
                ids_of(*held) == self.held_ids(),
                self.gather_ok(ls, a as int, 0, loc_ids_of(*level)),
                loc_ids_of(*level).dom().finite(),
            decreases ls.len() - a,
        {
            let oids = self.cells.get(locs[a]).unwrap();
            let ghost l = key(ls[a as int]);
            let mut b: usize = 0;
            proof {
                assert(self.cells().contains_key(l));
                assert forall|x: int, i: int| self.gathered(ls, a as int, 0, x, i) == self.gathered(ls, a as int, b as int, x, i) by {}
            }
            while b < oids.len()
                invariant
                    ls == locs@,
                    a < ls.len(),
                    l == key(ls[a as int]),
                    oids@ == self.cells()[l],
                    self.cells().contains_key(l),
                    forall|x: int| 0 <= x < ls.len() ==> self.cells().contains_key(key(#[trigger] ls[x])),
                    ls.no_duplicates(),
                    ids_of(*held) == self.held_ids(),
                    b <= oids@.len(),
                    self.gather_ok(ls, a as int, b as int, loc_ids_of(*level)),
                    loc_ids_of(*level).dom().finite(),
                decreases oids@.len() - b,
            {
                let o = oids[b];
                let ghost before = loc_ids_of(*level);
                proof {
                    assert(self.id_at(ls, a as int, b as int) == o);
                }
                match level.insert(o, locs[a]) {
                    Some(_) => {
                        proof {
                            let (x, i) = choose|x: int, i: int| self.gathered(ls, a as int, b as int, x, i) && #[trigger] self.id_at(ls, x, i) == o;
                            let l1 = key(ls[x]);
                            if x != a {
                                assert(ls[x] != ls[a as int]);
                            }
                            assert(self.cells()[l1][i] == self.cells()[l][b as int]);
                            assert(!placed_once(self.cells()));
                        }
                        return false;
                    },
                    None => {},
                }
                if !self.objects.contains_key(o) {
                    proof {
                        assert(self.cells()[l][b as int] == o);
                    }
                    return false;
                }
                if held.contains(o) {
                    proof {
                        assert(self.cells()[l][b as int] == o);
                    }
                    return false;
                }
                proof {
                    let m = loc_ids_of(*level);
                    assert forall|o2: Oid| #[trigger] m.contains_key(o2) <==> exists|x: int, i: int|
                        self.gathered(ls, a as int, b + 1, x, i) && #[trigger] self.id_at(ls, x, i) == o2 by {
                        if m.contains_key(o2) && o2 != o {
                            let (x, i) = choose|x: int, i: int| self.gathered(ls, a as int, b as int, x, i) && #[trigger] self.id_at(ls, x, i) == o2;
                            assert(self.gathered(ls, a as int, b + 1, x, i));
                        }
                        if o2 == o {
                            assert(self.gathered(ls, a as int, b + 1, a as int, b as int));
                        }
                        if exists|x: int, i: int| self.gathered(ls, a as int, b + 1, x, i) && #[trigger] self.id_at(ls, x, i) == o2 {
                            let (x, i) = choose|x: int, i: int| self.gathered(ls, a as int, b + 1, x, i) && #[trigger] self.id_at(ls, x, i) == o2;
                            if !(x == a && i == b) {
                                assert(self.gathered(ls, a as int, b as int, x, i));
                            }
                        }
                    }
                    assert forall|x1: int, i1: int, x2: int, i2: int|
                        #![trigger self.id_at(ls, x1, i1), self.id_at(ls, x2, i2)]
                        self.gathered(ls, a as int, b + 1, x1, i1) && self.gathered(ls, a as int, b + 1, x2, i2)
                            && self.id_at(ls, x1, i1) == self.id_at(ls, x2, i2) implies x1 == x2 && i1 == i2 by {
                        if x1 == a && i1 == b && !(x2 == a && i2 == b) {
                            assert(before.contains_key(self.id_at(ls, x2, i2)));
                        }
                        if x2 == a && i2 == b && !(x1 == a && i1 == b) {
                            assert(before.contains_key(self.id_at(ls, x1, i1)));
                        }
                    }
                }
                b = b + 1;
            }
            proof {
                let m = loc_ids_of(*level);
                assert forall|x: int, i: int| #![trigger self.gathered(ls, a + 1, 0, x, i)]
                    self.gathered(ls, a as int, b as int, x, i) == self.gathered(ls, a + 1, 0, x, i) by {}
            }
            a = a + 1;
        }
        proof {
            let m = loc_ids_of(*level);
            assert forall|l: (i32, i32), i: int|
                #![trigger self.cells()[l][i]]
                self.cells().contains_key(l) && 0 <= i < self.cells()[l].len() implies self.objs().contains_key(
                    self.cells()[l][i],
                ) && !self.held(self.cells()[l][i]) by {
                let x = choose|x: int| 0 <= x < ls.len() && (#[trigger] ls[x]).x == l.0 && ls[x].y == l.1;
                assert(key(ls[x]) == l);
                assert(self.gathered(ls, a as int, 0, x, i));
                assert(self.id_at(ls, x, i) == self.cells()[l][i]);
            }
            assert forall|l1: (i32, i32), l2: (i32, i32), i: int, j: int|
                #![trigger self.cells()[l1][i], self.cells()[l2][j]]
                self.cells().contains_key(l1) && self.cells().contains_key(l2) && 0 <= i < self.cells()[l1].len() && 0 <= j
                    < self.cells()[l2].len() && self.cells()[l1][i] == self.cells()[l2][j] implies l1 == l2 && i == j by {
                let x1 = choose|x: int| 0 <= x < ls.len() && (#[trigger] ls[x]).x == l1.0 && ls[x].y == l1.1;
                let x2 = choose|x: int| 0 <= x < ls.len() && (#[trigger] ls[x]).x == l2.0 && ls[x].y == l2.1;
                assert(key(ls[x1]) == l1 && key(ls[x2]) == l2);
                assert(self.gathered(ls, a as int, 0, x1, i) && self.gathered(ls, a as int, 0, x2, j));
                assert(self.id_at(ls, x1, i) == self.id_at(ls, x2, j));
            }
            assert forall|o: Oid| m.dom().contains(o) <==> self.map_ids().contains(o) by {
                if m.contains_key(o) {
                    let (x, i) = choose|x: int, i: int| self.gathered(ls, a as int, 0, x, i) && #[trigger] self.id_at(ls, x, i) == o;
                    assert(self.cells()[key(ls[x])][i] == o);
                }
                if self.map_ids().contains(o) {
                    let (l, i) = choose|l: (i32, i32), i: int|
                        self.cells().contains_key(l) && 0 <= i < self.cells()[l].len() && #[trigger] self.cells()[l][i] == o;
                    let x = choose|x: int| 0 <= x < ls.len() && (#[trigger] ls[x]).x == l.0 && ls[x].y == l.1;
                    assert(key(ls[x]) == l);
                    assert(self.gathered(ls, a as int, 0, x, i) && self.id_at(ls, x, i) == o);
                }
            }
            assert(m.dom() =~= self.map_ids());
        }
        true
    }

    /// Whether the whole-level checks hold.
    pub fn expensive_invariants(&self) -> (ok: bool)
        ensures
            ok == self.expensive_checks(),
    {
        let mut held = IdSet::new();
        if !self.gather_held(&mut held) {
            return false;
        }
        let mut level = LocIds::new();
        if !self.gather_level(&held, &mut level) {
            return false;
        }
        let count = self.objects.len();
        // Every object is held, on the map, or in the default cell.
        let total = match held.len().checked_add(level.len()) {
            Some(n) => n.checked_add(self.default_cell.len()),
            None => None,
        };
        match total {
            Some(total) => {
                if total != count {
                    return false;
                }
            },
            None => {
                return false;
            },
        }
        // The ids of the map were found to exist above.
        let mut i: usize = 0;
        while i < self.default_cell.len()
            invariant
                i <= self.default_oids().len(),
                forall|j: int| 0 <= j < i ==> self.objs().contains_key(#[trigger] self.default_oids()[j]),
            decreases self.default_oids().len() - i,
        {
            if !self.objects.contains_key(self.default_cell[i]) {
                return false;
            }
            i = i + 1;
        }
        let locs = self.cells.locs();
        let ghost ls = locs@;
        let mut a: usize = 0;
        while a < locs.len()
            invariant
                ls == locs@,
                a <= ls.len(),
                forall|x: int| 0 <= x < ls.len() ==> self.cells().contains_key(key(#[trigger] ls[x])),
                forall|x: int| 0 <= x < a ==> self.cell_checks(self.cells()[key(#[trigger] ls[x])]),
            decreases ls.len() - a,
        {
            let oids = self.cells.get(locs[a]).unwrap();
            if !self.cell_invariant(oids) {
                proof {
                    assert(self.cells().contains_key(key(ls[a as int])));
                }
                return false;
            }
            a = a + 1;
        }
        proof {
            assert forall|l: (i32, i32)| #[trigger] self.cells().contains_key(l) implies self.cell_checks(self.cells()[l]) by {
                let x = choose|x: int| 0 <= x < ls.len() && (#[trigger] ls[x]).x == l.0 && ls[x].y == l.1;
                assert(key(ls[x]) == l);
            }
        }
        true
    }
}

} // verus!
