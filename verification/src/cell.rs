use crate::color::Color;
use crate::object::{Object, Symbol};
use crate::object;
use crate::tag::{self, Tid, CHARACTER_ID, TERRAIN_ID};
use vstd::prelude::*;

verus! {

/// Index of the first object at or after `from` that has a tag with the id, or -1.
pub open spec fn find_obj(objects: Seq<Object>, id: u16, from: int) -> int
    decreases objects.len() - from,
{
    if from < 0 || from >= objects.len() {
        -1
    } else if objects[from].spec_has(id) {
        from
    } else {
        find_obj(objects, id, from + 1)
    }
}

pub proof fn lemma_find_obj(objects: Seq<Object>, id: u16, from: int)
    requires
        0 <= from,
    ensures
        find_obj(objects, id, from) < 0 ==> forall|i: int|
            from <= i < objects.len() ==> !(#[trigger] objects[i]).spec_has(id),
        find_obj(objects, id, from) >= 0 ==> {
            let r = find_obj(objects, id, from);
            &&& from <= r < objects.len()
            &&& objects[r].spec_has(id)
            &&& forall|i: int| from <= i < r ==> !(#[trigger] objects[i]).spec_has(id)
        },
    decreases objects.len() - from,
{
    if from < objects.len() && !objects[from].spec_has(id) {
        lemma_find_obj(objects, id, from + 1);
    }
}

/// The rules for the objects in a cell: each object follows the object rules, the first
/// object is the cell's only terrain object and there is at most one character.
pub open spec fn cell_wf(objects: Seq<Object>) -> bool {
    &&& objects.len() > 0
    &&& forall|i: int| 0 <= i < objects.len() ==> (#[trigger] objects[i]).wf()
    &&& objects[0].spec_has(TERRAIN_ID)
    &&& forall|i: int| 0 < i < objects.len() ==> !(#[trigger] objects[i]).spec_has(TERRAIN_ID)
    &&& forall|i: int, j: int|
        0 <= i < objects.len() && 0 <= j < objects.len() && i != j && (
        #[trigger] objects[i]).spec_has(CHARACTER_ID) ==> !(#[trigger] objects[j]).spec_has(
            CHARACTER_ID,
        )
}

/// Levels are composed of objects and cells contain objects.
pub struct Cell {
    objects: Vec<Object>,
}

impl Cell {
    pub closed spec fn spec_objects(&self) -> Seq<Object> {
        self.objects@
    }

    /// An empty cell; the first object appended must be its terrain.
    pub fn new() -> (cell: Cell)
        ensures
            cell.spec_objects().len() == 0,
    {
        Cell { objects: Vec::new() }
    }

    /// Background from the terrain (the bottom object) and foreground color and symbol
    /// from the topmost object.
    pub fn to_bg_fg_symbol(&self) -> (r: (Color, Color, Symbol))
        requires
            self.spec_objects().len() > 0,
            object::background_of(self.spec_objects()[0].spec_tags()) is Some,
        ensures
            object::background_of(self.spec_objects()[0].spec_tags()) == Some(r.0),
            r.1 == self.spec_objects().last().spec_color(),
            r.2 == self.spec_objects().last().spec_symbol(),
    {
        let bg = self.objects[0].to_bg_color();
        let (fg, symbol) = self.objects[self.objects.len() - 1].to_fg_symbol();
        (bg, fg, symbol)
    }

    pub fn iter(&self) -> (it: std::slice::Iter<'_, Object>)
        ensures
            vstd::std_specs::iter::IteratorSpec::remaining(&it).unref() == self.spec_objects(),
    {
        broadcast use vstd::std_specs::slice::axiom_spec_slice_iter;

        self.objects.iter()
    }

    /// Adds an object on top; the cell must still follow the cell rules afterwards.
    pub fn append(&mut self, object: Object)
        requires
            cell_wf(old(self).spec_objects().push(object)),
        ensures
            final(self).spec_objects() == old(self).spec_objects().push(object),
            cell_wf(final(self).spec_objects()),
    {
        self.objects.push(object);
    }

    /// The terrain object, at the bottom of the cell.
    pub fn terrain(&self) -> (t: &Object)
        requires
            self.spec_objects().len() > 0,
        ensures
            *t == self.spec_objects()[0],
    {
        &self.objects[0]
    }

    /// Index of the first object with the id.
    fn position(&self, id: u16) -> (r: Option<usize>)
        ensures
            match r {
                Some(i) => i == find_obj(self.objects@, id, 0) && i < self.objects.len(),
                None => find_obj(self.objects@, id, 0) < 0,
            },
    {
        let mut i: usize = 0;
        while i < self.objects.len()
            invariant
                i <= self.objects.len(),
                find_obj(self.objects@, id, 0) == find_obj(self.objects@, id, i as int),
            decreases self.objects.len() - i,
        {
            if self.objects[i].has(Tid(id)) {
                return Some(i);
            }
            i += 1;
        }
        None
    }

    /// Some object in the cell has a tag with the id.
    pub fn contains(&self, id: u16) -> (r: bool)
        ensures
            r == (find_obj(self.spec_objects(), id, 0) >= 0),
            r == exists|i: int|
                0 <= i < self.spec_objects().len() && (#[trigger] self.spec_objects()[i]).spec_has(id),
    {
        proof {
            lemma_find_obj(self.objects@, id, 0);
        }
        let r = self.position(id).is_some();
        proof {
            if r {
                let i = find_obj(self.objects@, id, 0);
                assert(self.spec_objects()[i].spec_has(id));
            } else {
                assert forall|i: int| 0 <= i < self.spec_objects().len() implies !(
                #[trigger] self.spec_objects()[i]).spec_has(id) by {
                    assert(!self.objects@[i].spec_has(id));
                }
            }
        }
        r
    }

    /// The first object with a tag with the id (there must be one).
    pub fn get(&self, id: u16) -> (obj: &Object)
        requires
            find_obj(self.spec_objects(), id, 0) >= 0,
        ensures
            *obj == self.spec_objects()[find_obj(self.spec_objects(), id, 0)],
    {
        let index = self.position(id).unwrap();
        &self.objects[index]
    }

    /// The first object with a tag with the id (there must be one), for modification. The
    /// caller keeps the cell rules.
    pub fn get_mut(&mut self, id: u16) -> (obj: &mut Object)
        requires
            find_obj(old(self).spec_objects(), id, 0) >= 0,
        ensures
            *obj == old(self).spec_objects()[find_obj(old(self).spec_objects(), id, 0)],
            final(self).spec_objects() == old(self).spec_objects().update(
                find_obj(old(self).spec_objects(), id, 0),
                *final(obj),
            ),
    {
        let index = self.position(id).unwrap();
        &mut self.objects[index]
    }

    /// Removes and returns the first object with a tag with the id; the cell must still
    /// follow the cell rules afterwards.
    pub fn remove(&mut self, id: u16) -> (obj: Object)
        requires
            find_obj(old(self).spec_objects(), id, 0) >= 0,
            cell_wf(
                old(self).spec_objects().remove(find_obj(old(self).spec_objects(), id, 0)),
            ),
        ensures
            obj == old(self).spec_objects()[find_obj(old(self).spec_objects(), id, 0)],
            final(self).spec_objects() == old(self).spec_objects().remove(
                find_obj(old(self).spec_objects(), id, 0),
            ),
            cell_wf(final(self).spec_objects()),
    {
        let index = self.position(id).unwrap();
        self.objects.remove(index)
    }

    /// Replaces the first object with a tag with the id; the cell must still follow the
    /// cell rules afterwards.
    pub fn replace(&mut self, id: u16, new_obj: Object)
        requires
            find_obj(old(self).spec_objects(), id, 0) >= 0,
            cell_wf(
                old(self).spec_objects().update(find_obj(old(self).spec_objects(), id, 0), new_obj),
            ),
        ensures
            final(self).spec_objects() == old(self).spec_objects().update(
                find_obj(old(self).spec_objects(), id, 0),
                new_obj,
            ),
            cell_wf(final(self).spec_objects()),
    {
        let index = self.position(id).unwrap();
        self.objects.set(index, new_obj);
    }

    /// True when the cell follows the cell rules.
    pub fn check_invariant(&self) -> (ok: bool)
        ensures
            ok == cell_wf(self.spec_objects()),
    {
        let n = self.objects.len();
        if n == 0 {
            return false;
        }
        let mut i: usize = 0;
        while i < n
            invariant
                n == self.objects.len(),
                i <= n,
                forall|k: int| 0 <= k < i ==> (#[trigger] self.objects@[k]).wf(),
            decreases n - i,
        {
            if !self.objects[i].check_invariant() {
                return false;
            }
            i += 1;
        }
        if !self.objects[0].has(Tid(TERRAIN_ID)) {
            return false;
        }
        let mut characters: usize = 0;
        if self.objects[0].has(Tid(CHARACTER_ID)) {
            characters = 1;
        }
        let ghost mut first_char: int = 0;
        let mut i: usize = 1;
        while i < n
            invariant
                n == self.objects.len(),
                1 <= i <= n,
                characters <= 1,
                forall|k: int| 0 < k < i ==> !(#[trigger] self.objects@[k]).spec_has(TERRAIN_ID),
                characters == 0 ==> forall|k: int|
                    0 <= k < i ==> !(#[trigger] self.objects@[k]).spec_has(CHARACTER_ID),
                characters == 1 ==> 0 <= first_char < i && self.objects@[first_char].spec_has(
                    CHARACTER_ID,
                ) && forall|k: int|
                    0 <= k < i && k != first_char ==> !(#[trigger] self.objects@[k]).spec_has(
                        CHARACTER_ID,
                    ),
            decreases n - i,
        {
            if self.objects[i].has(Tid(TERRAIN_ID)) {
                return false;
            }
            if self.objects[i].has(Tid(CHARACTER_ID)) {
                if characters == 1 {
                    return false;
                }
                characters = 1;
                proof {
                    first_char = i as int;
                }
            }
            i += 1;
        }
        true
    }
}

} // verus!
