//! Decides who acts next. Objects accumulate time units and when they have enough they
//! perform an action, which uses up units. Once every object that has enough units has had
//! a chance to act, time advances and every object is given that much more.
use crate::oid::Oid;
use crate::time::{diagnol_move, min_time, Time};
use fnv::FnvHashMap;
use rand::rngs::SmallRng;
use crate::random::shuffle;
use vstd::prelude::*;

verus! {

/// An object and the time it currently has to perform an action.
#[derive(Clone, Copy, Debug, PartialEq, Eq, Structural)]
pub struct Entry {
    pub oid: Oid,
    pub units: Time,
}

/// The time units of each scheduled object, in a hash map with the FNV hasher. The map is
/// held privately so that the wrappers below are the only access to it: vstd's `HashMap`
/// contracts hold only for hashers that it knows to be deterministic, and the FNV hasher
/// is not among them.
#[verifier::external_body]
pub struct Entries {
    map: FnvHashMap<Oid, Time>,
}

/// What the map holds: the units of each scheduled object, by object id.
pub uninterp spec fn entries_units(e: Entries) -> Map<u32, Time>;

impl Entries {
    /// Calls `FnvHashMap::default`. Trusted: the map starts empty.
    #[verifier::external_body]
    fn new() -> (e: Entries)
        ensures
            entries_units(e).is_empty(),
    {
        Entries { map: FnvHashMap::default() }
    }

    /// Calls `HashMap::get`. Trusted: the object's units if it is scheduled.
    #[verifier::external_body]
    fn get(&self, oid: Oid) -> (r: Option<Time>)
        ensures
            match r {
                Some(t) => entries_units(*self).contains_key(oid.value) && t == entries_units(
                    *self,
                )[oid.value],
                None => !entries_units(*self).contains_key(oid.value),
            },
    {
        self.map.get(&oid).copied()
    }

    /// Calls `HashMap::insert`. Trusted: the object now has the units, and the units it
    /// had, if it was scheduled, are returned.
    #[verifier::external_body]
    fn insert(&mut self, oid: Oid, units: Time) -> (old_units: Option<Time>)
        ensures
            entries_units(*final(self)) == entries_units(*old(self)).insert(oid.value, units),
            match old_units {
                Some(t) => entries_units(*old(self)).contains_key(oid.value) && t == entries_units(
                    *old(self),
                )[oid.value],
                None => !entries_units(*old(self)).contains_key(oid.value),
            },
    {
        self.map.insert(oid, units)
    }

    /// Calls `HashMap::remove`. Trusted: the object is no longer scheduled.
    #[verifier::external_body]
    fn remove(&mut self, oid: Oid)
        ensures
            entries_units(*final(self)) == entries_units(*old(self)).remove(oid.value),
    {
        self.map.remove(&oid);
    }

    /// Calls `HashMap::keys`, copying them out. Trusted: each scheduled object once, in the
    /// order that the map is walked (which is left open).
    #[verifier::external_body]
    fn oids(&self) -> (oids: Vec<Oid>)
        ensures
            oids@.no_duplicates(),
            forall|i: int| 0 <= i < oids@.len() ==> entries_units(*self).contains_key(
                #[trigger] oids@[i].value,
            ),
            forall|k: u32| #[trigger]
                entries_units(*self).contains_key(k) ==> exists|i: int|
                    0 <= i < oids@.len() && oids@[i].value == k,
    {
        self.map.keys().copied().collect()
    }
}

/// A round as it starts: each entry is a scheduled object with its units, which are at
/// least the minimum time, and every object with at least the minimum time has one entry.
pub open spec fn fresh_round(units: Map<u32, Time>, round: Seq<Entry>) -> bool {
    &&& forall|i: int| #![trigger round[i]]
        0 <= i < round.len() ==> {
            let e = round[i];
            &&& units.contains_key(e.oid.value)
            &&& e.units == units[e.oid.value]
            &&& e.units@ >= 100
        }
    &&& forall|k: u32| #[trigger]
        units.contains_key(k) && units[k]@ >= 100 ==> exists|i: int|
            0 <= i < round.len() && round[i].oid.value == k
    &&& forall|i: int, j: int|
        0 <= i < round.len() && 0 <= j < round.len() && i != j ==> (#[trigger] round[i]).oid != (
        #[trigger] round[j]).oid
}

/// The player moves first: when the player has at least the minimum time and every other
/// object has at most none, as `add` asks of them, a round that starts then holds the
/// player once and nobody else.
pub proof fn law_player_moves_first(units: Map<u32, Time>, round: Seq<Entry>)
    requires
        units.contains_key(0),
        units[0]@ >= 100,
        forall|k: u32| #[trigger] units.contains_key(k) && k != 0 ==> units[k]@ <= 0,
        fresh_round(units, round),
    ensures
        round.len() == 1,
        round[0].oid.value == 0,
{
    assert(units.contains_key(0) && units[0]@ >= 100);
    assert forall|i: int| 0 <= i < round.len() implies (#[trigger] round[i]).oid.value == 0 by {
        let e = round[i];
        if e.oid.value != 0 {
            assert(units[e.oid.value]@ <= 0);
        }
    }
    if round.len() > 1 {
        assert(round[0].oid.value == 0 && round[1].oid.value == 0);
        assert(round[0].oid == round[1].oid);
    }
}

pub struct Scheduler {
    entries: Entries,
    now: Time,
    /// Objects who are given a chance to move before time advances.
    round: Vec<Entry>,
}

impl Scheduler {
    /// The units of each scheduled object.
    pub closed spec fn units(&self) -> Map<u32, Time> {
        entries_units(self.entries)
    }

    pub closed spec fn spec_now(&self) -> Time {
        self.now
    }

    /// The objects still to move in the current round; the last moves first.
    pub closed spec fn spec_round(&self) -> Seq<Entry> {
        self.round@
    }

    pub fn new() -> (s: Scheduler)
        ensures
            s.units().is_empty(),
            s.spec_now()@ == 0,
            s.spec_round().len() == 0,
    {
        Scheduler { entries: Entries::new(), now: Time::zero(), round: Vec::new() }
    }

    pub fn now(&self) -> (t: Time)
        ensures
            t == self.spec_now(),
    {
        self.now
    }

    /// Player starts with a small amount of time units. NPCs start out with zero time
    /// units. That way the player will always have the first move. Other objects may start
    /// out with a negative time so that they execute some time in the future. An object
    /// can be scheduled only once.
    pub fn add(&mut self, oid: Oid, initial: Time)
        requires
            oid.value == 0 ==> initial@ >= 100,
            oid.value != 0 ==> initial@ <= 0,
            !old(self).units().contains_key(oid.value),
        ensures
            final(self).units() == old(self).units().insert(oid.value, initial),
            final(self).spec_now() == old(self).spec_now(),
            final(self).spec_round() == old(self).spec_round(),
    {
        let _ = self.entries.insert(oid, initial);
    }

    /// Objects can remove themselves from scheduling if they have nothing left to do so
    /// this may be a no-op.
    pub fn remove(&mut self, oid: Oid)
        ensures
            final(self).units() == old(self).units().remove(oid.value),
            final(self).spec_now() == old(self).spec_now(),
            final(self).spec_round() == old(self).spec_round(),
    {
        self.entries.remove(oid);
    }

    /// The player used up the fuzzed duration of an action that takes at least the
    /// minimum time.
    pub fn player_acted(&mut self, taken: Time, fuzzed: Time)
        requires
            taken@ >= 100,
            fuzzed@ >= 1,
            old(self).units().contains_key(0),
            old(self).units()[0]@ - fuzzed@ >= i64::MIN,
        ensures
            final(self).units() == old(self).units().insert(
                0,
                final(self).units()[0],
            ),
            final(self).units()[0]@ == old(self).units()[0]@ - fuzzed@,
            final(self).spec_now() == old(self).spec_now(),
            final(self).spec_round() == old(self).spec_round(),
    {
        let units = self.entries.get(Oid::without_tag(0)).unwrap();
        proof {
            units.lemma_bounds();
            fuzzed.lemma_bounds();
        }
        let _ = self.entries.insert(Oid::without_tag(0), units.minus(fuzzed));
    }

    /// An object causes another object to use up the fuzzed duration of an action, e.g. by
    /// stunning it or shoving it out of the way; nothing happens if it is not scheduled.
    pub fn force_acted(&mut self, oid: Oid, taken: Time, fuzzed: Time)
        requires
            taken@ >= 100,
            fuzzed@ >= 1,
            old(self).units().contains_key(oid.value) ==> old(self).units()[oid.value]@ - fuzzed@
                >= i64::MIN,
        ensures
            old(self).units().contains_key(oid.value) ==> {
                &&& final(self).units().dom() == old(self).units().dom()
                &&& final(self).units() == old(self).units().insert(
                    oid.value,
                    final(self).units()[oid.value],
                )
                &&& final(self).units()[oid.value]@ == old(self).units()[oid.value]@ - fuzzed@
            },
            !old(self).units().contains_key(oid.value) ==> final(self).units() == old(
                self,
            ).units(),
            final(self).spec_now() == old(self).spec_now(),
            final(self).spec_round() == old(self).spec_round(),
    {
        if let Some(units) = self.entries.get(oid) {
            proof {
                units.lemma_bounds();
                fuzzed.lemma_bounds();
            }
            let _ = self.entries.insert(oid, units.minus(fuzzed));
        }
    }

    /// A scheduled object other than the player used up the fuzzed duration of an action.
    pub fn obj_acted(&mut self, oid: Oid, taken: Time, fuzzed: Time)
        requires
            taken@ >= 100,
            fuzzed@ >= 1,
            oid.value != 0,
            old(self).units().contains_key(oid.value),
            old(self).units()[oid.value]@ - fuzzed@ >= i64::MIN,
        ensures
            final(self).units() == old(self).units().insert(
                oid.value,
                final(self).units()[oid.value],
            ),
            final(self).units()[oid.value]@ == old(self).units()[oid.value]@ - fuzzed@,
            final(self).spec_now() == old(self).spec_now(),
            final(self).spec_round() == old(self).spec_round(),
    {
        let units = self.entries.get(oid).unwrap();
        proof {
            units.lemma_bounds();
            fuzzed.lemma_bounds();
        }
        let _ = self.entries.insert(oid, units.minus(fuzzed));
    }

    /// Advances time by a diagonal move: the clock, and every object's units.
    pub fn advance_time(&mut self)
        requires
            old(self).spec_now()@ + 1130 <= i64::MAX,
            forall|k: u32| #[trigger]
                old(self).units().contains_key(k) ==> old(self).units()[k]@ + 1130 <= i64::MAX,
        ensures
            final(self).spec_now()@ == old(self).spec_now()@ + 1130,
            final(self).units().dom() == old(self).units().dom(),
            forall|k: u32| #[trigger]
                final(self).units().contains_key(k) ==> final(self).units()[k]@ == old(
                    self,
                ).units()[k]@ + 1130,
            final(self).spec_round() == old(self).spec_round(),
    {
        proof {
            self.now.lemma_bounds();
        }
        self.now = self.now.plus(diagnol_move());
        let oids = self.entries.oids();
        let ghost before = self.units();
        let ghost now_after = self.now;
        assert(before == old(self).units());
        let mut i: usize = 0;
        while i < oids.len()
            invariant
                0 <= i <= oids@.len(),
                oids@.no_duplicates(),
                forall|j: int| 0 <= j < oids@.len() ==> before.contains_key(#[trigger] oids@[j].value),
                forall|k: u32| #[trigger]
                    before.contains_key(k) ==> exists|j: int|
                        0 <= j < oids@.len() && oids@[j].value == k,
                forall|k: u32| #[trigger]
                    before.contains_key(k) ==> before[k]@ + 1130 <= i64::MAX,
                self.units().dom() == before.dom(),
                self.now == now_after,
                now_after@ == old(self).spec_now()@ + 1130,
                self.round@ == old(self).round@,
                forall|j: int| #![trigger oids@[j]]
                    0 <= j < i ==> self.units()[oids@[j].value]@ == before[oids@[j].value]@ + 1130,
                forall|j: int| #![trigger oids@[j]]
                    i <= j < oids@.len() ==> self.units()[oids@[j].value] == before[oids@[j].value],
            decreases oids@.len() - i,
        {
            let oid = oids[i];
            let units = self.entries.get(oid).unwrap();
            proof {
                units.lemma_bounds();
                assert(before.contains_key(oids@[i as int].value));
            }
            let _ = self.entries.insert(oid, units.plus(diagnol_move()));
            proof {
                assert forall|j: int| #![trigger oids@[j]]
                    i < j < oids@.len() implies oids@[j].value != oid.value by {
                    assert(oids@[j] != oids@[i as int]);
                }
                assert forall|j: int| #![trigger oids@[j]]
                    0 <= j < i implies oids@[j].value != oid.value by {
                    assert(oids@[j] != oids@[i as int]);
                }
                assert(self.units().dom() =~= before.dom());
            }
            i = i + 1;
        }
        proof {
            assert forall|k: u32| #[trigger]
                self.units().contains_key(k) implies self.units()[k]@ == before[k]@ + 1130 by {
                let j = choose|j: int| 0 <= j < oids@.len() && oids@[j].value == k;
                assert(oids@[j].value == k);
            }
        }
    }

    /// Starts a new round when the last one is over: every object with at least the
    /// minimum time, in a random order.
    pub fn start_round(&mut self, rng: &mut SmallRng)
        ensures
            old(self).spec_round().len() > 0 ==> final(self).spec_round() == old(self).spec_round(),
            old(self).spec_round().len() == 0 ==> fresh_round(old(self).units(), final(self).spec_round()),
            final(self).units() == old(self).units(),
            final(self).spec_now() == old(self).spec_now(),
    {
        if self.round.len() == 0 {
            let oids = self.entries.oids();
            let mut items: Vec<Entry> = Vec::new();
            let mut i: usize = 0;
            while i < oids.len()
                invariant
                    0 <= i <= oids@.len(),
                    forall|j: int| 0 <= j < oids@.len() ==> self.units().contains_key(
                        #[trigger] oids@[j].value,
                    ),
                    forall|j: int| #![trigger items@[j]]
                        0 <= j < items@.len() ==> {
                            let e = items@[j];
                            &&& self.units().contains_key(e.oid.value)
                            &&& e.units == self.units()[e.oid.value]
                            &&& e.units@ >= 100
                        },
                    forall|j: int| #![trigger oids@[j]]
                        0 <= j < i && self.units()[oids@[j].value]@ >= 100 ==> exists|m: int|
                            0 <= m < items@.len() && items@[m].oid.value == oids@[j].value,
                    oids@.no_duplicates(),
                    forall|m: int| 0 <= m < items@.len() ==> exists|j: int|
                        0 <= j < i && (#[trigger] items@[m]).oid == oids@[j],
                    forall|a: int, b: int|
                        0 <= a < items@.len() && 0 <= b < items@.len() && a != b ==> (#[trigger] items@[a]).oid
                            != (#[trigger] items@[b]).oid,
                decreases oids@.len() - i,
            {
                let oid = oids[i];
                let units = self.entries.get(oid).unwrap();
                let ghost old_items = items@;
                if min_time().le(&units) {
                    items.push(Entry { oid, units });
                }
                proof {
                    assert forall|m: int| 0 <= m < items@.len() implies exists|j: int|
                        0 <= j < i + 1 && (#[trigger] items@[m]).oid == oids@[j] by {
                        if m < old_items.len() {
                            assert(items@[m] == old_items[m]);
                            let j = choose|j: int| 0 <= j < i && (#[trigger] old_items[m]).oid == oids@[j];
                        } else {
                            assert(items@[m].oid == oids@[i as int]);
                        }
                    }
                    assert forall|a: int, b: int|
                        0 <= a < items@.len() && 0 <= b < items@.len() && a != b implies (#[trigger] items@[a]).oid
                        != (#[trigger] items@[b]).oid by {
                        if a < old_items.len() && b < old_items.len() {
                            assert(items@[a] == old_items[a]);
                            assert(items@[b] == old_items[b]);
                        } else if a < old_items.len() {
                            assert(items@[a] == old_items[a]);
                            let j = choose|j: int| 0 <= j < i && (#[trigger] old_items[a]).oid == oids@[j];
                            assert(oids@[j] != oids@[i as int]);
                        } else if b < old_items.len() {
                            assert(items@[b] == old_items[b]);
                            let j = choose|j: int| 0 <= j < i && (#[trigger] old_items[b]).oid == oids@[j];
                            assert(oids@[j] != oids@[i as int]);
                        }
                    }
                    assert forall|j: int| #![trigger oids@[j]]
                        0 <= j < i + 1 && self.units()[oids@[j].value]@ >= 100 implies exists|m: int|
                        0 <= m < items@.len() && items@[m].oid.value == oids@[j].value by {
                        if j == i {
                            assert(items@[items@.len() - 1].oid.value == oids@[j].value);
                        } else {
                            let m = choose|m: int|
                                0 <= m < old_items.len() && old_items[m].oid.value == oids@[j].value;
                            assert(items@[m] == old_items[m]);
                        }
                    }
                }
                i = i + 1;
            }
            let ghost collected = items@;
            let ghost units = self.units();
            assert(units == old(self).units());
            assert forall|m: int| #![trigger collected[m]] 0 <= m < collected.len() implies {
                &&& units.contains_key(collected[m].oid.value)
                &&& collected[m].units == units[collected[m].oid.value]
                &&& collected[m].units@ >= 100
            } by {
                assert(items@[m] == collected[m]);
            }
            assert forall|k: u32| #[trigger]
                units.contains_key(k) && units[k]@ >= 100 implies exists|m: int|
                0 <= m < collected.len() && collected[m].oid.value == k by {
                let j = choose|j: int| 0 <= j < oids@.len() && oids@[j].value == k;
                assert(oids@[j].value == k);
            }
            proof {
                assert(collected.no_duplicates()) by {
                    assert forall|a: int, b: int|
                        0 <= a < collected.len() && 0 <= b < collected.len() && a != b implies collected[a]
                        != collected[b] by {
                        assert(items@[a].oid != items@[b].oid);
                    }
                }
                collected.lemma_multiset_has_no_duplicates();
            }
            shuffle(&mut items, rng);
            proof {
                broadcast use vstd::seq_lib::group_to_multiset_ensures;

                items@.lemma_multiset_has_no_duplicates_conv();
                assert forall|a: int, b: int|
                    0 <= a < items@.len() && 0 <= b < items@.len() && a != b implies (#[trigger] items@[a]).oid
                    != (#[trigger] items@[b]).oid by {
                    assert(items@.contains(items@[a]));
                    assert(items@.to_multiset().count(items@[a]) > 0);
                    assert(collected.to_multiset().count(items@[a]) > 0);
                    assert(collected.contains(items@[a]));
                    assert(items@.contains(items@[b]));
                    assert(items@.to_multiset().count(items@[b]) > 0);
                    assert(collected.to_multiset().count(items@[b]) > 0);
                    assert(collected.contains(items@[b]));
                    let ma = choose|m: int| 0 <= m < collected.len() && collected[m] == items@[a];
                    let mb = choose|m: int| 0 <= m < collected.len() && collected[m] == items@[b];
                    if items@[a].oid == items@[b].oid {
                        assert(items@[a].units == units[items@[a].oid.value]);
                        assert(items@[a] == items@[b]);
                    }
                }

                assert forall|i: int| #![trigger items@[i]] 0 <= i < items@.len() implies {
                    &&& units.contains_key(items@[i].oid.value)
                    &&& items@[i].units == units[items@[i].oid.value]
                    &&& items@[i].units@ >= 100
                } by {
                    assert(items@.contains(items@[i]));
                    assert(items@.to_multiset().count(items@[i]) > 0);
                    assert(collected.to_multiset().count(items@[i]) > 0);
                    assert(collected.contains(items@[i]));
                    let m = choose|m: int| 0 <= m < collected.len() && collected[m] == items@[i];
                    assert(collected[m] == items@[i]);
                }
                assert forall|k: u32| #[trigger]
                    units.contains_key(k) && units[k]@ >= 100 implies exists|i: int|
                    0 <= i < items@.len() && items@[i].oid.value == k by {
                    let m = choose|m: int| 0 <= m < collected.len() && collected[m].oid.value == k;
                    assert(collected.contains(collected[m]));
                    assert(collected.to_multiset().count(collected[m]) > 0);
                    assert(items@.to_multiset().count(collected[m]) > 0);
                    assert(items@.contains(collected[m]));
                    let i = choose|i: int| 0 <= i < items@.len() && items@[i] == collected[m];
                    assert(items@[i].oid.value == k);
                }
            }
            self.round = items;
            proof {
                assert forall|i: int| #![trigger self.spec_round()[i]]
                    0 <= i < self.spec_round().len() implies {
                    let e = self.spec_round()[i];
                    &&& old(self).units().contains_key(e.oid.value)
                    &&& e.units == old(self).units()[e.oid.value]
                    &&& e.units@ >= 100
                } by {
                    assert(self.spec_round()[i] == items@[i]);
                }
                assert forall|k: u32| #[trigger]
                    old(self).units().contains_key(k) && old(self).units()[k]@ >= 100 implies exists|
                    i: int,
                |
                    0 <= i < self.spec_round().len() && self.spec_round()[i].oid.value == k by {
                    assert(units.contains_key(k) && units[k]@ >= 100);
                    let i = choose|i: int| 0 <= i < items@.len() && items@[i].oid.value == k;
                    assert(self.spec_round()[i] == items@[i]);
                }
                assert forall|a: int, b: int|
                    0 <= a < self.spec_round().len() && 0 <= b < self.spec_round().len() && a != b implies (
                    #[trigger] self.spec_round()[a]).oid != (#[trigger] self.spec_round()[b]).oid by {
                    assert(self.spec_round()[a] == items@[a]);
                    assert(self.spec_round()[b] == items@[b]);
                }
                assert(fresh_round(old(self).units(), self.spec_round()));
            }
        }
    }

    /// Takes the next object of the round, if any is left.
    pub fn next_in_round(&mut self) -> (e: Option<Entry>)
        ensures
            old(self).spec_round().len() == 0 ==> e is None && final(self).spec_round() == old(
                self,
            ).spec_round(),
            old(self).spec_round().len() > 0 ==> e == Some(old(self).spec_round().last())
                && final(self).spec_round() == old(self).spec_round().drop_last(),
            final(self).units() == old(self).units(),
            final(self).spec_now() == old(self).spec_now(),
    {
        self.round.pop()
    }
}

} // verus!
