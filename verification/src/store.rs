//! Used to manage game state: a very general value store that records information about
//! the world. A key (an object id) and a value type give access to one value; the values
//! for a key must have distinct types.
use crate::oid::Oid;
use crate::type_id::StoreValue;
use fnv::FnvHashMap;
use vstd::prelude::*;

verus! {

/// The encoded values, keyed by object id and value type id, in a hash map with the FNV
/// hasher. The map is held privately so that the wrappers below are the only access to
/// it: vstd's `HashMap` contracts hold only for hashers that it knows to be
/// deterministic, and the FNV hasher is not among them.
#[verifier::external_body]
pub struct ValueMap {
    map: FnvHashMap<(u32, u16), Vec<u8>>,
}

/// What the map holds: the bytes of each value, by (object id, value type id).
pub uninterp spec fn value_map_contents(m: ValueMap) -> Map<(u32, u16), Seq<u8>>;

impl ValueMap {
    /// Calls `FnvHashMap::default`. Trusted: the map starts empty.
    #[verifier::external_body]
    fn new() -> (m: ValueMap)
        ensures
            value_map_contents(m).is_empty(),
    {
        ValueMap { map: FnvHashMap::default() }
    }

    /// Calls `HashMap::insert`. Trusted: the key now maps to the bytes, and the value the
    /// key had before, if any, is returned.
    #[verifier::external_body]
    fn insert(&mut self, key: u32, id: u16, bytes: Vec<u8>) -> (old_value: Option<Vec<u8>>)
        ensures
            value_map_contents(*final(self)) == value_map_contents(*old(self)).insert(
                (key, id),
                bytes@,
            ),
            match old_value {
                Some(b) => value_map_contents(*old(self)).contains_key((key, id)) && b@
                    == value_map_contents(*old(self))[(key, id)],
                None => !value_map_contents(*old(self)).contains_key((key, id)),
            },
    {
        self.map.insert((key, id), bytes)
    }

    /// Calls `HashMap::get`. Trusted: the bytes of the key if it is present.
    #[verifier::external_body]
    fn get(&self, key: u32, id: u16) -> (r: Option<&Vec<u8>>)
        ensures
            match r {
                Some(b) => value_map_contents(*self).contains_key((key, id)) && b@
                    == value_map_contents(*self)[(key, id)],
                None => !value_map_contents(*self).contains_key((key, id)),
            },
    {
        self.map.get(&(key, id))
    }

    /// Calls `HashMap::remove`. Trusted: the key is gone afterwards, and its bytes, if it
    /// was present, are returned.
    #[verifier::external_body]
    fn remove(&mut self, key: u32, id: u16) -> (r: Option<Vec<u8>>)
        ensures
            value_map_contents(*final(self)) == value_map_contents(*old(self)).remove((key, id)),
            match r {
                Some(b) => value_map_contents(*old(self)).contains_key((key, id)) && b@
                    == value_map_contents(*old(self))[(key, id)],
                None => !value_map_contents(*old(self)).contains_key((key, id)),
            },
    {
        self.map.remove(&(key, id))
    }
}

/// The slot of a value type for a key.
pub open spec fn slot<V: StoreValue>(key: Oid) -> (u32, u16) {
    (key.value, V::spec_id())
}

/// The value of type `V` that the contents hold for the key, if any.
pub open spec fn store_read<V: StoreValue>(contents: Map<(u32, u16), Seq<u8>>, key: Oid) -> Option<V> {
    if contents.contains_key(slot::<V>(key)) {
        V::decoding(contents[slot::<V>(key)])
    } else {
        None
    }
}

/// The contents after a write of the value for the key: its slot holds the value's
/// encoding, which reads back as the value, and every other slot is unchanged.
pub open spec fn written<V: StoreValue>(
    before: Map<(u32, u16), Seq<u8>>,
    after: Map<(u32, u16), Seq<u8>>,
    key: Oid,
    value: V,
) -> bool {
    &&& after == before.insert(slot::<V>(key), value.encoding())
    &&& V::decoding(value.encoding()) == Some(value)
}

/// Records all the game state.
pub struct Store {
    primitives: ValueMap,
}

impl View for Store {
    type V = Map<(u32, u16), Seq<u8>>;

    closed spec fn view(&self) -> Map<(u32, u16), Seq<u8>> {
        value_map_contents(self.primitives)
    }
}

impl Store {
    pub fn new() -> (s: Store)
        ensures
            s@ == Map::<(u32, u16), Seq<u8>>::empty(),
    {
        Store { primitives: ValueMap::new() }
    }

    /// Adds a value for the key; there must not already be a value of that type for it.
    pub fn create<V: StoreValue>(&mut self, key: Oid, value: V)
        requires
            !old(self)@.contains_key(slot::<V>(key)),
        ensures
            written(old(self)@, final(self)@, key, value),
    {
        let had_old = self.replace(key, value);
        assert(!had_old);
    }

    /// Sets the value for the key whether or not the key had a value of that type.
    /// Returns true when one was replaced.
    pub fn replace<V: StoreValue>(&mut self, key: Oid, value: V) -> (had_old: bool)
        ensures
            written(old(self)@, final(self)@, key, value),
            had_old == old(self)@.contains_key(slot::<V>(key)),
    {
        let bytes = value.to_bytes();
        let old_value = self.primitives.insert(key.value, V::type_id(), bytes);
        old_value.is_some()
    }

    /// Removes the value of the type for the key; a missing value is no error.
    pub fn remove<V: StoreValue>(&mut self, key: Oid)
        ensures
            final(self)@ == old(self)@.remove(slot::<V>(key)),
    {
        let _ = self.primitives.remove(key.value, V::type_id());
    }

    /// Moves the value of the type from one key to another, which must not have one.
    pub fn transfer<V: StoreValue>(&mut self, from: Oid, to: Oid)
        requires
            old(self)@.contains_key(slot::<V>(from)),
            !old(self)@.remove(slot::<V>(from)).contains_key(slot::<V>(to)),
        ensures
            final(self)@ == old(self)@.remove(slot::<V>(from)).insert(
                slot::<V>(to),
                old(self)@[slot::<V>(from)],
            ),
    {
        let bytes = self.primitives.remove(from.value, V::type_id()).unwrap();
        let old_value = self.primitives.insert(to.value, V::type_id(), bytes);
        assert(old_value.is_none());
    }

    /// The value of the type for the key, if there is one. A value that is present must be
    /// readable as the type.
    pub fn find<V: StoreValue>(&self, key: Oid) -> (r: Option<V>)
        requires
            self@.contains_key(slot::<V>(key)) ==> V::decoding(self@[slot::<V>(key)]) is Some,
        ensures
            r == store_read::<V>(self@, key),
    {
        match self.primitives.get(key.value, V::type_id()) {
            Some(bytes) => {
                let value = V::from_bytes(bytes.as_slice());
                Some(value.unwrap())
            },
            None => None,
        }
    }
}

/// A read of a value type for a key after a write of a value of that type for the key
/// gives the value back, and a write leaves the reads of every other slot as they were.
pub proof fn law_read_after_write<V: StoreValue, W: StoreValue>(
    before: Store,
    after: Store,
    key: Oid,
    value: V,
    other: Oid,
)
    requires
        written(before@, after@, key, value),
    ensures
        store_read::<V>(after@, key) == Some(value),
        slot::<W>(other) != slot::<V>(key) ==> store_read::<W>(after@, other) == store_read::<W>(
            before@,
            other,
        ),
{
}

/// After a removal, the slot reads as empty and every other slot reads as before.
pub proof fn law_read_after_remove<V: StoreValue, W: StoreValue>(
    before: Store,
    after: Store,
    key: Oid,
    other: Oid,
)
    requires
        after@ == before@.remove(slot::<V>(key)),
    ensures
        store_read::<V>(after@, key) is None,
        slot::<W>(other) != slot::<V>(key) ==> store_read::<W>(after@, other) == store_read::<W>(
            before@,
            other,
        ),
{
}

/// A transfer moves the value: afterwards the new key reads what the old key read, the
/// old key (if it is another) reads nothing, and every other slot reads as before.
pub proof fn law_read_after_transfer<V: StoreValue, W: StoreValue>(
    before: Store,
    after: Store,
    from: Oid,
    to: Oid,
    other: Oid,
)
    requires
        before@.contains_key(slot::<V>(from)),
        after@ == before@.remove(slot::<V>(from)).insert(slot::<V>(to), before@[slot::<V>(from)]),
    ensures
        store_read::<V>(after@, to) == store_read::<V>(before@, from),
        from.value != to.value ==> store_read::<V>(after@, from) is None,
        slot::<W>(other) != slot::<V>(from) && slot::<W>(other) != slot::<V>(to) ==> store_read::<W>(
            after@,
            other,
        ) == store_read::<W>(before@, other),
{
}

} // verus!
