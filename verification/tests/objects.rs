use one_thousand_deaths::cell::Cell;
use one_thousand_deaths::color::Color;
use one_thousand_deaths::make::{broken_name, door_tags, new_obj, to_durability, wall_tags};
use one_thousand_deaths::message::Topic;
use one_thousand_deaths::object::{ObjectName, Symbol};
use one_thousand_deaths::tag::{
    Durability, Material, Slot, Tag, Terrain, Tid, CHARACTER_ID, PLAYER_ID, PORTABLE_ID,
    TERRAIN_ID,
};

fn all_names() -> Vec<ObjectName> {
    vec![
        ObjectName::LeatherChest, ObjectName::LeatherGloves, ObjectName::LeatherHat,
        ObjectName::LeatherLegs, ObjectName::LeatherSandals, ObjectName::GreaterArmorySign,
        ObjectName::LesserArmorySign, ObjectName::PickAxe, ObjectName::BerokeSoftVoice,
        ObjectName::Doorman, ObjectName::Guard, ObjectName::HaladRackBearer, ObjectName::Icarium,
        ObjectName::ImrothTheCruel, ObjectName::KahlbTheSilentHunter, ObjectName::Player,
        ObjectName::Rhulad, ObjectName::SiballeTheUnfound, ObjectName::Spectator,
        ObjectName::ThenikTheShattered, ObjectName::UrugalTheWoven, ObjectName::ClosedDoor,
        ObjectName::DeepWater, ObjectName::Dirt, ObjectName::MetalWall, ObjectName::OpenDoor,
        ObjectName::Rubble, ObjectName::ShallowWater, ObjectName::StoneWall, ObjectName::Tree,
        ObjectName::Vitr, ObjectName::Dagger, ObjectName::Broadsword, ObjectName::EmperorSword,
        ObjectName::LongKnife, ObjectName::LongSword, ObjectName::MightySword,
    ]
}

#[test]
fn every_made_object_follows_the_object_rules() {
    for name in all_names() {
        let obj = new_obj(name);
        assert!(obj.check_invariant(), "{:?}", name);
        assert!(!obj.dname().is_empty());
    }
}

#[test]
fn terrain_objects() {
    let dirt = new_obj(ObjectName::Dirt);
    assert_eq!(dirt.terrain_value(), Some(Terrain::Ground));
    assert!(dirt.has(Tid(TERRAIN_ID)));
    assert!(!dirt.blocks_los());
    assert_eq!(dirt.description(), "a patch of dirt");
    assert_eq!(dirt.dname(), "Dirt");

    let wall = new_obj(ObjectName::StoneWall);
    assert!(wall.blocks_los());
    assert_eq!(wall.durability_value(), Some(Durability { current: 500, max: 500 }));
    assert_eq!(wall.to_bg_color(), Color::Black);
}

#[test]
fn characters_and_items() {
    let player = new_obj(ObjectName::Player);
    assert!(player.has(Tid(CHARACTER_ID)));
    assert!(player.has(Tid(PLAYER_ID)));
    assert_eq!(player.inventory_value().map(|v| v.len()), Some(0));
    assert_eq!(player.equipped_value().map(|v| v.len()), Some(7));

    let guard = new_obj(ObjectName::Guard);
    assert!(guard.has(Tid(CHARACTER_ID)));
    assert!(!guard.has(Tid(PLAYER_ID)));

    let sword = new_obj(ObjectName::LongSword);
    assert!(sword.has(Tid(PORTABLE_ID)));
    assert!(!sword.has(Tid(CHARACTER_ID)));
}

#[test]
fn impassible_terrain_messages() {
    let player = new_obj(ObjectName::Player);
    let guard = new_obj(ObjectName::Guard);
    let water = new_obj(ObjectName::DeepWater);
    let m = player.impassible_terrain(&water).unwrap();
    assert_eq!(m.topic, Topic::Failed);
    assert_eq!(m.text, "The water is too deep.");
    assert!(player.impassible_terrain(&new_obj(ObjectName::Dirt)).is_none());
    assert_eq!(player.impassible_terrain_type(Terrain::Wall).unwrap().text, "You bump into the wall.");
    assert!(player.impassible_terrain_type(Terrain::ClosedDoor).is_none());
    assert_eq!(
        guard.impassible_terrain_type(Terrain::Vitr).unwrap().text,
        "Do you have a death wish?"
    );
}

#[test]
fn tag_ids_and_slots() {
    assert_eq!(Tag::Portable.to_id(), Tid(PORTABLE_ID));
    assert_eq!(Tag::Terrain(Terrain::Tree).to_id(), Tid(TERRAIN_ID));
    assert_eq!(Slot::MainHand.index() < 7, true);
    assert_ne!(Slot::Head.index(), Slot::Feet.index());
    assert_eq!(Slot::OffHand.index(), 1);
    assert_eq!(Slot::Chest.index(), 3);
    assert_eq!(Slot::Feet.index(), 6);
}

#[test]
fn durability_and_wall_tags() {
    assert_eq!(to_durability(Material::Stone), 100);
    assert_eq!(to_durability(Material::Metal), 1000);
    let tags = wall_tags(Color::Black, Material::Metal);
    assert_eq!(tags.len(), 4);
    let tags = door_tags(Color::Black, Material::Stone, true);
    assert_eq!(tags.len(), 4);
    assert_eq!(broken_name(ObjectName::UrugalTheWoven), "Urugal the Woven");
}

#[test]
fn metal_walls_are_metal() {
    let obj = new_obj(ObjectName::MetalWall);
    let tags: Vec<&Tag> = obj.iter().collect();
    let expected = vec![
        Tag::Durability(Durability { current: 5000, max: 5000 }),
        Tag::Material(Material::Metal),
        Tag::Terrain(Terrain::Wall),
        Tag::Background(Color::Black),
    ];
    assert_eq!(tags.len(), expected.len());
    for (t, e) in tags.iter().zip(expected.iter()) {
        assert_eq!(*t, e);
    }
    assert_eq!(obj.description(), "a metal wall");
    assert_eq!(obj.to_fg_symbol(), (Color::Silver, Symbol::Wall));
}

#[test]
fn replace_keeps_one_tag_of_a_kind() {
    let mut obj = new_obj(ObjectName::Guard);
    obj.replace(Tag::Durability(Durability { current: 1, max: 100 }));
    assert_eq!(obj.durability_value(), Some(Durability { current: 1, max: 100 }));
    assert!(obj.check_invariant());
}

#[test]
fn cells_layer_terrain_and_characters() {
    let mut cell = Cell::new();
    cell.append(new_obj(ObjectName::Dirt));
    cell.append(new_obj(ObjectName::LongSword));
    cell.append(new_obj(ObjectName::Guard));
    assert!(cell.check_invariant());
    assert!(cell.contains(CHARACTER_ID));
    assert!(cell.contains(PORTABLE_ID));
    assert_eq!(cell.terrain().terrain_value(), Some(Terrain::Ground));
    assert_eq!(cell.get(CHARACTER_ID).dname(), "Guard");
    let (bg, _fg, symbol) = cell.to_bg_fg_symbol();
    assert_eq!(bg, Color::Black);
    assert_eq!(symbol, Symbol::Npc('g'));
    assert_eq!(cell.iter().count(), 3);

    let guard = cell.remove(CHARACTER_ID);
    assert_eq!(guard.dname(), "Guard");
    assert!(!cell.contains(CHARACTER_ID));
    assert!(cell.check_invariant());

    cell.replace(TERRAIN_ID, new_obj(ObjectName::ShallowWater));
    assert_eq!(cell.terrain().terrain_value(), Some(Terrain::ShallowWater));

    cell.get_mut(PORTABLE_ID).replace(Tag::Name("dull sword"));
    assert!(cell.check_invariant());
}

#[test]
fn empty_cell_breaks_the_rules() {
    let cell = Cell::new();
    assert!(!cell.check_invariant());
}
