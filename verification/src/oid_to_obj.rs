//! A data view built from the event stream: every created object by id.
use crate::char_to_loc::Event;
use crate::make::new_obj;
use crate::object::{Object, ObjectName};
use crate::oid::Oid;
use fnv::FnvHashMap;
use vstd::prelude::*;

verus! {

/// The objects by id, in a hash map with the FNV hasher. The map is held privately so that
/// the wrappers below are the only access to it: vstd's `HashMap` contracts hold only for
/// hashers that it knows to be deterministic, and the FNV hasher is not among them.
#[verifier::external_body]
pub struct ObjTable {
    table: FnvHashMap<Oid, Object>,
}

/// What the table holds: each object by its id.
pub uninterp spec fn table_objects(t: ObjTable) -> Map<Oid, Object>;

impl ObjTable {
    /// Calls `FnvHashMap::default`. Trusted: the table starts empty.
    #[verifier::external_body]
    fn new() -> (t: ObjTable)
        ensures
            table_objects(t).is_empty(),
    {
        ObjTable { table: FnvHashMap::default() }
    }

    /// Calls `HashMap::get`. Trusted: the object with the id, if there is one.
    #[verifier::external_body]
    fn get(&self, oid: Oid) -> (r: Option<&Object>)
        ensures
            match r {
                Some(obj) => table_objects(*self).contains_key(oid) && *obj == table_objects(*self)[oid],
                None => !table_objects(*self).contains_key(oid),
            },
    {
        self.table.get(&oid)
    }

    /// Calls `HashMap::insert`. Trusted: the id now has the object.
    #[verifier::external_body]
    fn insert(&mut self, oid: Oid, obj: Object)
        ensures
            table_objects(*final(self)) == table_objects(*old(self)).insert(oid, obj),
    {
        self.table.insert(oid, obj);
    }
}

pub struct OidToObj {
    table: ObjTable,
    /// The id of the next object that is not the player: 0 is the player, 1 the default
    /// object.
    next_id: u32,
    last_oid: Oid,
}

impl OidToObj {
    pub closed spec fn objects(&self) -> Map<Oid, Object> {
        table_objects(self.table)
    }

    pub closed spec fn spec_next_id(&self) -> u32 {
        self.next_id
    }

    pub closed spec fn spec_last_oid(&self) -> Oid {
        self.last_oid
    }

    pub fn new() -> (v: OidToObj)
        ensures
            v.objects().is_empty(),
            v.spec_next_id() == 2,
            v.spec_last_oid() == (Oid { value: 0 }),
    {
        OidToObj { table: ObjTable::new(), next_id: 2, last_oid: Oid::without_tag(0) }
    }

    /// The object with the id, which must exist.
    pub fn lookup(&self, oid: Oid) -> (obj: &Object)
        requires
            self.objects().contains_key(oid),
        ensures
            *obj == self.objects()[oid],
    {
        self.table.get(oid).unwrap()
    }

    /// The id of the object created last.
    pub fn last_oid(&self) -> (oid: Oid)
        ensures
            oid == self.spec_last_oid(),
    {
        self.last_oid
    }

    /// Applies an event: a created object gets the player's id, or the next one, and is
    /// made by its name. Other events leave the view as it is.
    pub fn process(&mut self, event: Event)
        requires
            event matches Event::Create(name) && name != ObjectName::Player ==> old(self).spec_next_id() < u32::MAX,
        ensures
            match event {
                Event::Create(name) => {
                    let oid = if name == ObjectName::Player {
                        Oid { value: 0 }
                    } else {
                        Oid { value: old(self).spec_next_id() }
                    };
                    &&& final(self).spec_last_oid() == oid
                    &&& final(self).spec_next_id() == if name == ObjectName::Player {
                        old(self).spec_next_id()
                    } else {
                        (old(self).spec_next_id() + 1) as u32
                    }
                    &&& final(self).objects().dom() == old(self).objects().dom().insert(oid)
                    &&& forall|k: Oid| k != oid ==> #[trigger] final(self).objects()[k] == old(self).objects()[k]
                    &&& final(self).objects()[oid].spec_name() == name
                    &&& final(self).objects()[oid].wf()
                },
                _ => *final(self) == *old(self),
            },
    {
        match event {
            Event::Create(name) => {
                self.last_oid = if name == ObjectName::Player {
                    Oid::without_tag(0)
                } else {
                    let o = Oid::without_tag(self.next_id);
                    self.next_id = self.next_id + 1;
                    o
                };
                self.table.insert(self.last_oid, new_obj(name));
            },
            _ => {},
        }
    }
}

} // verus!
