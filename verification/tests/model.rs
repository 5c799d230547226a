use one_thousand_deaths::make::new_obj;
use one_thousand_deaths::model::{Model, ModelBuilder};
use one_thousand_deaths::object::ObjectName;
use one_thousand_deaths::oid::Oid;
use one_thousand_deaths::point::Point;
use one_thousand_deaths::tag::{Tag, Tid, CHARACTER_ID, PORTABLE_ID, TERRAIN_ID};

fn oid(v: u32) -> Oid {
    Oid::without_tag(v)
}

/// A three by one strip of dirt with the player on the left, a guard in the middle and a
/// sword on the right. Builder ids start at 100 so that they do not meet the ids that the
/// model hands out.
fn small_model() -> Model {
    let mut builder = ModelBuilder::new();
    builder.set_default(oid(100), new_obj(ObjectName::StoneWall));
    for x in 0..3 {
        builder.set_terrain(Point::new(x, 0), oid(101 + x as u32), new_obj(ObjectName::Dirt));
    }
    builder.set_player(Point::new(0, 0), new_obj(ObjectName::Player));
    builder.set_npc(Point::new(1, 0), oid(110), new_obj(ObjectName::Guard));
    builder.set_item(Point::new(2, 0), oid(111), new_obj(ObjectName::LongSword));
    Model::try_from_builder(builder).unwrap()
}

#[test]
fn builder_needs_the_player() {
    let mut builder = ModelBuilder::new();
    builder.set_default(oid(100), new_obj(ObjectName::StoneWall));
    builder.set_terrain(Point::new(0, 0), oid(101), new_obj(ObjectName::Dirt));
    builder.set_terrain(Point::new(1, 0), oid(102), new_obj(ObjectName::Dirt));
    assert!(Model::try_from_builder(builder).is_none());
}

#[test]
fn cells_are_layered() {
    let model = small_model();
    assert_eq!(model.player_loc(), Point::new(0, 0));
    assert_eq!(*model.cell(Point::new(0, 0)), vec![oid(0), oid(101)]);
    assert_eq!(*model.cell(Point::new(2, 0)), vec![oid(111), oid(103)]);
    assert_eq!(*model.cell(Point::new(9, 9)), vec![oid(100)]);
    assert!(model.cheap_invariants(Point::new(0, 0)));
    assert!(model.cheap_invariants(Point::new(1, 0)));
    assert!(model.cheap_invariants(Point::new(2, 0)));
    assert!(!model.cheap_invariants(Point::new(5, 5)));
}

#[test]
fn get_finds_the_topmost() {
    let model = small_model();
    let (found, obj) = model.get(Point::new(1, 0), Tid(CHARACTER_ID)).unwrap();
    assert_eq!(found, oid(110));
    assert_eq!(obj.dname(), "Guard");
    assert_eq!(model.get(Point::new(1, 0), Tid(TERRAIN_ID)).unwrap().0, oid(102));
    assert!(model.get(Point::new(1, 0), Tid(PORTABLE_ID)).is_none());
    // Outside the map the default object answers.
    assert_eq!(model.get(Point::new(7, 7), Tid(TERRAIN_ID)).unwrap().0, oid(100));
    // The top is the guard, the bottom its dirt.
    assert_eq!(model.get_top(Point::new(1, 0)).0, oid(110));
    assert_eq!(model.get_bottom(Point::new(1, 0)).0, oid(102));
    // Where an item lies on the terrain, the item is on top.
    assert_eq!(model.get_top(Point::new(2, 0)).0, oid(111));
    assert_eq!(model.get_bottom(Point::new(2, 0)).0, oid(103));
    assert_eq!(model.get_top(Point::new(-3, 0)).0, oid(100));
    let ids: Vec<Oid> = model.cell_iter(Point::new(2, 0)).iter().map(|e| e.0).collect();
    assert_eq!(ids, vec![oid(103), oid(111)]);
    assert!(model.try_obj(oid(555)).is_none());
    assert_eq!(model.obj(oid(111)).dname(), "LongSword");
}

#[test]
fn add_and_remove_items() {
    let mut model = small_model();
    let new = model.add(new_obj(ObjectName::Dagger), Some(Point::new(1, 0)));
    assert_eq!(new, oid(1));
    // Just after the guard.
    assert_eq!(*model.cell(Point::new(1, 0)), vec![oid(110), oid(1), oid(102)]);
    let carried = model.add(new_obj(ObjectName::LeatherHat), None);
    assert_eq!(carried, oid(2));
    model.add_oid(carried, Point::new(2, 0));
    assert_eq!(*model.cell(Point::new(2, 0)), vec![oid(2), oid(111), oid(103)]);
    model.remove(oid(1), Point::new(1, 0));
    assert_eq!(*model.cell(Point::new(1, 0)), vec![oid(110), oid(102)]);
    assert!(model.try_obj(oid(1)).is_none());
    assert!(model.cheap_invariants(Point::new(1, 0)));
}

#[test]
fn characters_move_between_cells() {
    let mut model = small_model();
    model.change_loc(oid(0), Point::new(0, 0), Point::new(2, 0));
    assert_eq!(model.player_loc(), Point::new(2, 0));
    assert_eq!(*model.cell(Point::new(0, 0)), vec![oid(101)]);
    assert_eq!(*model.cell(Point::new(2, 0)), vec![oid(0), oid(111), oid(103)]);
    assert!(model.cheap_invariants(Point::new(2, 0)));
}

#[test]
fn replace_keeps_the_place() {
    let mut model = small_model();
    let new = model.replace(Point::new(1, 0), oid(102), new_obj(ObjectName::ShallowWater));
    assert_eq!(new, oid(1));
    assert_eq!(*model.cell(Point::new(1, 0)), vec![oid(110), oid(1)]);
    assert!(model.try_obj(oid(102)).is_none());
}

#[test]
fn new_cells_copy_the_default() {
    let mut model = small_model();
    model.ensure_neighbors(Point::new(1, 0));
    assert_eq!(model.cell(Point::new(1, 1)).len(), 1);
    assert_eq!(model.cell(Point::new(0, -1)).len(), 1);
    // The strip's own cells are unchanged.
    assert_eq!(*model.cell(Point::new(1, 0)), vec![oid(110), oid(102)]);
    let top = model.get_top(Point::new(1, 1)).1;
    assert_eq!(top.dname(), "StoneWall");
}

#[test]
fn get_mut_changes_an_object() {
    let mut model = small_model();
    {
        let (found, obj) = model.get_mut(Point::new(1, 0), Tid(CHARACTER_ID)).unwrap();
        assert_eq!(found, oid(110));
        obj.replace(Tag::Name("a sleepy guard"));
    }
    assert!(model.obj(oid(110)).check_invariant());
    // A location outside the map becomes a cell first.
    assert!(model.get_mut(Point::new(50, 50), Tid(CHARACTER_ID)).is_none());
    assert_eq!(model.cell(Point::new(50, 50)).len(), 1);
}

#[test]
fn whole_level_check_passes_on_a_well_built_model() {
    // Every id on the map is at one place only, and every object is on the map or held.
    let model = small_model();
    assert!(model.expensive_invariants());
    assert!(model.cheap_invariants(Point::new(0, 0)));
}

#[test]
fn the_character_picks_up_the_item() {
    let mut model = small_model();
    // Move the sword onto the player's cell, where the player takes it.
    model.change_loc(oid(111), Point::new(2, 0), Point::new(0, 0));
    assert_eq!(*model.cell(Point::new(0, 0)), vec![oid(0), oid(111), oid(101)]);
    model.pickup(Point::new(0, 0), oid(111));
    assert_eq!(*model.cell(Point::new(0, 0)), vec![oid(0), oid(101)]);
    assert_eq!(*model.obj(oid(0)).inventory_value().unwrap(), vec![oid(111)]);
    assert!(model.obj(oid(111)).inventory_value().is_none());
    assert!(model.try_obj(oid(111)).is_some());
}

#[test]
fn adding_then_removing_restores_the_cell() {
    let mut model = small_model();
    let before: Vec<Oid> = model.cell(Point::new(1, 0)).clone();
    let oid = model.add(new_obj(ObjectName::Dagger), Some(Point::new(1, 0)));
    assert_eq!(model.cell(Point::new(1, 0)).len(), before.len() + 1);
    model.remove(oid, Point::new(1, 0));
    assert_eq!(*model.cell(Point::new(1, 0)), before);
    assert!(model.try_obj(oid).is_none());
}
