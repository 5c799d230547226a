use one_thousand_deaths::lookup::Lookup;
use one_thousand_deaths::make::new_obj;
use one_thousand_deaths::object::ObjectName;
use one_thousand_deaths::oid::Oid;
use one_thousand_deaths::point::Point;
use one_thousand_deaths::tag::{Tid, CHARACTER_ID, INVENTORY_ID, PORTABLE_ID, TERRAIN_ID};

fn oid(v: u32) -> Oid {
    Oid::without_tag(v)
}

/// A four by one strip of dirt with the player on the left and guards at x = 2 and x = 3.
/// Ids: the terrain gets 2 to 5, the player 0 and the guards 6 and 7.
fn small_lookup() -> Lookup {
    let mut lookup = Lookup::new();
    for x in 0..4 {
        lookup.add(new_obj(ObjectName::Dirt), Some(Point::new(x, 0)));
    }
    lookup.add(new_obj(ObjectName::Player), Some(Point::new(0, 0)));
    lookup.add(new_obj(ObjectName::Guard), Some(Point::new(3, 0)));
    lookup.add(new_obj(ObjectName::Guard), Some(Point::new(2, 0)));
    lookup.set_constructing(false);
    lookup
}

#[test]
fn ids_are_handed_out_in_order() {
    let lookup = small_lookup();
    assert_eq!(lookup.player_loc(), Point::new(0, 0));
    assert_eq!(*lookup.cell(Point::new(0, 0)), vec![oid(2), oid(0)]);
    assert_eq!(*lookup.cell(Point::new(3, 0)), vec![oid(5), oid(6)]);
    assert_eq!(*lookup.cell(Point::new(2, 0)), vec![oid(4), oid(7)]);
    // Outside the map there is only the default object.
    assert_eq!(*lookup.cell(Point::new(9, 9)), vec![oid(1)]);
    let (obj, loc) = lookup.obj(oid(6));
    assert_eq!(obj.dname(), "Guard");
    assert_eq!(loc, Some(Point::new(3, 0)));
}

#[test]
fn lookup_get_finds_the_topmost() {
    let lookup = small_lookup();
    assert_eq!(lookup.get(Point::new(3, 0), Tid(CHARACTER_ID)).unwrap().0, oid(6));
    assert_eq!(lookup.get(Point::new(3, 0), Tid(TERRAIN_ID)).unwrap().0, oid(5));
    assert!(lookup.get(Point::new(1, 0), Tid(CHARACTER_ID)).is_none());
    assert!(lookup.get(Point::new(1, 0), Tid(PORTABLE_ID)).is_none());
    // Outside the map the default stone wall answers.
    let (found, wall) = lookup.get(Point::new(-5, 0), Tid(TERRAIN_ID)).unwrap();
    assert_eq!(found, oid(1));
    assert_eq!(wall.dname(), "StoneWall");
    assert_eq!(lookup.get_bottom(Point::new(3, 0)).0, oid(5));
    assert_eq!(lookup.get_top(Point::new(3, 0)).0, oid(6));
    assert_eq!(lookup.get_top(Point::new(1, 0)).0, oid(3));
    assert_eq!(lookup.get_top(Point::new(8, 8)).0, oid(1));
}

#[test]
fn cell_iter_starts_at_the_top() {
    let lookup = small_lookup();
    let ids: Vec<Oid> = lookup.cell_iter(Point::new(2, 0)).iter().map(|(id, _)| *id).collect();
    assert_eq!(ids, vec![oid(7), oid(4)]);
    assert!(lookup.cell_iter(Point::new(7, 7)).is_empty());
}

#[test]
fn npcs_are_sorted_by_distance() {
    let mut lookup = small_lookup();
    // The guard at x = 2 is closer than the one at x = 3.
    assert_eq!(lookup.npcs(), vec![oid(7), oid(6)]);
    lookup.moved(oid(7), Point::new(2, 0), Point::new(1, 0));
    lookup.moved(oid(0), Point::new(0, 0), Point::new(0, 5));
    assert_eq!(lookup.player_loc(), Point::new(0, 5));
    // Now (1, 0) is 26 away and (3, 0) is 34 away.
    assert_eq!(lookup.npcs(), vec![oid(7), oid(6)]);
    lookup.moved(oid(0), Point::new(0, 5), Point::new(3, 1));
    assert_eq!(lookup.npcs(), vec![oid(6), oid(7)]);
}

#[test]
fn npcs_at_the_same_distance_keep_their_order() {
    let mut lookup = Lookup::new();
    for x in 0..3 {
        lookup.add(new_obj(ObjectName::Dirt), Some(Point::new(x, 0)));
    }
    lookup.add(new_obj(ObjectName::Player), Some(Point::new(1, 0)));
    let right = lookup.add(new_obj(ObjectName::Guard), Some(Point::new(2, 0)));
    let left = lookup.add(new_obj(ObjectName::Guard), Some(Point::new(0, 0)));
    assert_eq!(lookup.npcs(), vec![right, left]);
}

#[test]
fn moved_changes_cells_and_location() {
    let mut lookup = small_lookup();
    lookup.moved(oid(6), Point::new(3, 0), Point::new(1, 0));
    assert_eq!(*lookup.cell(Point::new(3, 0)), vec![oid(5)]);
    assert_eq!(*lookup.cell(Point::new(1, 0)), vec![oid(3), oid(6)]);
    assert_eq!(lookup.obj(oid(6)).1, Some(Point::new(1, 0)));
    assert!(lookup.cheap_invariants(Point::new(1, 0)));
    assert!(lookup.cheap_invariants(Point::new(3, 0)));
}

#[test]
fn remove_takes_an_npc_off_the_map() {
    let mut lookup = small_lookup();
    lookup.remove(oid(6));
    assert_eq!(*lookup.cell(Point::new(3, 0)), vec![oid(5)]);
    assert_eq!(lookup.npcs(), vec![oid(7)]);
}

#[test]
fn replace_reuses_the_place_in_the_cell() {
    let mut lookup = small_lookup();
    let door = lookup.replace(Point::new(1, 0), oid(3), new_obj(ObjectName::ClosedDoor));
    assert_eq!(door, oid(8));
    assert_eq!(*lookup.cell(Point::new(1, 0)), vec![oid(8)]);
    assert_eq!(lookup.obj(oid(8)).0.dname(), "ClosedDoor");
    assert_eq!(lookup.obj(oid(8)).1, Some(Point::new(1, 0)));
}

#[test]
fn pickup_moves_an_item_into_the_inventory() {
    let mut lookup = small_lookup();
    let sword = lookup.add(new_obj(ObjectName::LongSword), Some(Point::new(0, 0)));
    assert_eq!(sword, oid(8));
    // The sword lies on top of the player, who picks it up.
    lookup.pickup(Point::new(0, 0), sword);
    assert_eq!(*lookup.cell(Point::new(0, 0)), vec![oid(2), oid(0)]);
    assert_eq!(lookup.obj(sword).1, None);
    let (_, player) = lookup.get(Point::new(0, 0), Tid(INVENTORY_ID)).unwrap();
    assert_eq!(*player.inventory_value().unwrap(), vec![sword]);
}

#[test]
fn ensure_neighbors_fills_in_walls() {
    let mut lookup = small_lookup();
    lookup.ensure_neighbors(Point::new(0, 0));
    // Five of the eight neighbours were missing; they get stone walls with new ids.
    assert_eq!(*lookup.cell(Point::new(-1, -1)), vec![oid(8)]);
    assert_eq!(lookup.get_top(Point::new(-1, 0)).1.dname(), "StoneWall");
    assert_eq!(*lookup.cell(Point::new(1, 0)), vec![oid(3)]);
    assert!(lookup.cheap_invariants(Point::new(0, 1)));
}

#[test]
fn get_mut_adds_a_cell_outside_the_map() {
    let mut lookup = small_lookup();
    let (id, obj) = lookup.get_mut(Point::new(6, 6), Tid(TERRAIN_ID)).unwrap();
    assert_eq!(obj.dname(), "StoneWall");
    assert_eq!(id, oid(8));
    assert_eq!(*lookup.cell(Point::new(6, 6)), vec![oid(8)]);
}

#[test]
fn cheap_invariants_catch_bad_cells() {
    let mut lookup = small_lookup();
    assert!(lookup.cheap_invariants(Point::new(0, 0)));
    assert!(!lookup.cheap_invariants(Point::new(4, 4)));
    // A guard below the terrain breaks the layering.
    let mut bad = Lookup::new();
    bad.add(new_obj(ObjectName::Guard), Some(Point::new(0, 0)));
    bad.add(new_obj(ObjectName::Dirt), Some(Point::new(0, 0)));
    assert!(!bad.cheap_invariants(Point::new(0, 0)));
    // A character on deep water is somewhere it cannot be.
    lookup.add(new_obj(ObjectName::DeepWater), Some(Point::new(5, 0)));
    lookup.add(new_obj(ObjectName::Guard), Some(Point::new(5, 0)));
    assert!(!lookup.cheap_invariants(Point::new(5, 0)));
}

#[test]
fn whole_level_checks() {
    let mut lookup = small_lookup();
    assert!(lookup.check_invariant());
    assert!(lookup.expensive_invariants());
    lookup.set_invariants(true);
    assert!(lookup.check_invariant());
    // An item picked up moves from the map into the player's inventory.
    let sword = lookup.add(new_obj(ObjectName::LongSword), Some(Point::new(0, 0)));
    lookup.pickup(Point::new(0, 0), sword);
    assert!(lookup.expensive_invariants());
    assert!(lookup.check_invariant());
}

#[test]
fn an_object_nowhere_fails_the_whole_level_checks() {
    let mut lookup = small_lookup();
    lookup.add(new_obj(ObjectName::Dagger), None);
    assert!(!lookup.expensive_invariants());
    // Without the expensive checks only the last cell changed is looked at.
    assert!(lookup.check_invariant());
    lookup.set_invariants(true);
    assert!(!lookup.check_invariant());
}

#[test]
fn checks_wait_for_construction() {
    let mut lookup = Lookup::new();
    // No player yet, but the level is still being built.
    assert!(lookup.check_invariant());
    lookup.add(new_obj(ObjectName::Dirt), Some(Point::new(0, 0)));
    lookup.set_constructing(false);
    assert!(!lookup.check_invariant());
}
