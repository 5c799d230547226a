use one_thousand_deaths::level::Level;
use one_thousand_deaths::make::new_obj;
use one_thousand_deaths::model::{Model, ModelBuilder};
use one_thousand_deaths::object::ObjectName;
use one_thousand_deaths::oid::Oid;
use one_thousand_deaths::point::Point;
use one_thousand_deaths::tag::{Tid, CHARACTER_ID, TERRAIN_ID};
use rand::rngs::SmallRng;
use rand::SeedableRng;

fn oid(v: u32) -> Oid {
    Oid::without_tag(v)
}

/// A three by one strip of dirt with the player on the left, a guard in the middle and a
/// sword on the right; the model hands out ids from 1.
fn small_level() -> Level {
    let mut builder = ModelBuilder::new();
    builder.set_default(oid(100), new_obj(ObjectName::StoneWall));
    for x in 0..3 {
        builder.set_terrain(Point::new(x, 0), oid(101 + x as u32), new_obj(ObjectName::Dirt));
    }
    builder.set_player(Point::new(0, 0), new_obj(ObjectName::Player));
    builder.set_npc(Point::new(1, 0), oid(110), new_obj(ObjectName::Guard));
    builder.set_item(Point::new(2, 0), oid(111), new_obj(ObjectName::LongSword));
    Level::new(Model::try_from_builder(builder).unwrap())
}

#[test]
fn a_new_level_knows_no_locations() {
    let level = small_level();
    assert_eq!(level.player_loc(), Point::new(0, 0));
    assert!(level.obj_loc(oid(110)).is_none());
    assert!(level.try_loc(oid(0)).is_none());
    assert_eq!(level.get(Point::new(1, 0), Tid(CHARACTER_ID)).unwrap().0, oid(110));
    assert_eq!(level.get_top(Point::new(1, 0)).0, oid(110));
    assert_eq!(level.get_bottom(Point::new(1, 0)).0, oid(102));
    assert_eq!(*level.cell(Point::new(2, 0)), vec![oid(111), oid(103)]);
    assert_eq!(level.obj(oid(111)).dname(), "LongSword");
    assert!(level.try_obj(oid(55)).is_none());
    let ids: Vec<Oid> = level.cell_iter(Point::new(1, 0)).iter().map(|(id, _)| *id).collect();
    assert_eq!(ids, vec![oid(102), oid(110)]);
    assert!(level.expensive_invariants());
}

#[test]
fn added_npcs_are_tracked_and_sorted() {
    let mut level = small_level();
    let guard = level.add(new_obj(ObjectName::Guard), Some(Point::new(2, 0)));
    assert_eq!(guard, oid(1));
    assert_eq!(level.obj_loc(guard), Some(&Point::new(2, 0)));
    assert_eq!(*level.cell(Point::new(2, 0)), vec![guard, oid(111), oid(103)]);
    assert_eq!(level.npcs(), vec![guard]);
    level.ensure_neighbors(Point::new(2, 0));
    assert_eq!(level.get(Point::new(3, 0), Tid(TERRAIN_ID)).unwrap().1.dname(), "StoneWall");
    level.change_loc(guard, Point::new(2, 0), Point::new(3, 1));
    assert_eq!(level.obj_loc(guard), Some(&Point::new(3, 1)));
    assert_eq!(level.npcs(), vec![guard]);
    assert!(level.expensive_invariants());
    level.remove(guard, Point::new(3, 1));
    assert!(level.npcs().is_empty());
    assert!(level.obj_loc(guard).is_none());
}

#[test]
fn add_oid_records_only_the_location() {
    let mut level = small_level();
    level.add_oid(oid(111), Point::new(0, 0));
    assert_eq!(level.obj_loc(oid(111)), Some(&Point::new(0, 0)));
    // The model still has the sword where it was, so the level's check fails.
    assert_eq!(*level.cell(Point::new(2, 0)), vec![oid(111), oid(103)]);
    assert!(!level.expensive_invariants());
}

#[test]
fn replace_moves_the_location_to_the_new_id() {
    let mut level = small_level();
    level.add_oid(oid(111), Point::new(2, 0));
    let dagger = level.replace(Point::new(2, 0), oid(111), new_obj(ObjectName::Dagger));
    assert_eq!(dagger, oid(1));
    assert_eq!(level.obj_loc(dagger), Some(&Point::new(2, 0)));
    assert!(level.obj_loc(oid(111)).is_none());
    assert_eq!(*level.cell(Point::new(2, 0)), vec![dagger, oid(103)]);
}

#[test]
fn random_loc_is_a_known_location() {
    let mut level = small_level();
    level.add_oid(oid(111), Point::new(2, 0));
    let mut rng = SmallRng::seed_from_u64(7);
    assert_eq!(level.random_loc(&mut rng), Point::new(2, 0));
}

#[test]
fn level_checks_follow_the_model() {
    let mut level = small_level();
    assert!(level.check_invariant());
    level.set_invariants(true);
    // With the whole-level checks enabled, the model's and the level's checks pass too.
    assert!(level.check_invariant());
    let mut rng_level = small_level();
    let (_, wall) = rng_level.get_mut(Point::new(5, 5), Tid(TERRAIN_ID)).unwrap();
    assert_eq!(wall.dname(), "StoneWall");
    assert_eq!(*rng_level.cell(Point::new(5, 5)), vec![oid(1)]);
}
