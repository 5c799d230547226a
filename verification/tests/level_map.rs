use one_thousand_deaths::lookup::Lookup;
use one_thousand_deaths::message::{Message, Topic};
use one_thousand_deaths::make::{add_extra, level, place_extra};
use one_thousand_deaths::object::ObjectName;
use one_thousand_deaths::oid::Oid;
use one_thousand_deaths::point::Point;
use one_thousand_deaths::tag::{Terrain, Tid, CHARACTER_ID, PORTABLE_ID};
use rand::rngs::SmallRng;
use rand::SeedableRng;

fn ids(oids: &Vec<Oid>) -> Vec<u32> {
    oids.iter().map(|o| o.value).collect()
}

/// "#P" over " s?": a stone wall, the player on dirt, then dirt, a weak sword on dirt and
/// an unknown character (dirt). The lookup's ids start at 2.
fn small_map() -> (Lookup, Vec<Message>) {
    let mut lookup = Lookup::new();
    let mut rng = SmallRng::seed_from_u64(7);
    let warnings = level(&mut lookup, "#P\n s?", &mut rng);
    (lookup, warnings)
}

#[test]
fn map_characters_become_terrain_and_what_stands_on_it() {
    let (lookup, warnings) = small_map();
    assert_eq!(warnings.len(), 1);
    assert_eq!(warnings[0].topic, Topic::Error);
    assert_eq!(warnings[0].text, "Ignoring map char '?'");
    assert_eq!(ids(lookup.cell(Point::new(0, 0))), vec![2]);
    assert_eq!(ids(lookup.cell(Point::new(1, 0))), vec![3, 0]);
    assert_eq!(ids(lookup.cell(Point::new(0, 1))), vec![4]);
    assert_eq!(ids(lookup.cell(Point::new(1, 1))), vec![5, 6]);
    assert_eq!(ids(lookup.cell(Point::new(2, 1))), vec![7]);
    assert_eq!(lookup.player_loc(), Point::new(1, 0));

    let (_, wall) = lookup.get_bottom(Point::new(0, 0));
    assert_eq!(wall.terrain_value(), Some(Terrain::Wall));
    assert_eq!(wall.description(), "a stone wall");
    let (_, dirt) = lookup.get_bottom(Point::new(2, 1));
    assert_eq!(dirt.terrain_value(), Some(Terrain::Ground));

    let (oid, sword) = lookup.get_top(Point::new(1, 1));
    assert_eq!(oid.value, 6);
    assert!(sword.has(Tid(PORTABLE_ID)));
    let swords = ["a nicked long sword", "a dull broadsword", "a shiny long knife", "a pointy dagger"];
    assert!(swords.contains(&sword.description()));
    let (player, _) = lookup.get(Point::new(1, 0), Tid(CHARACTER_ID)).unwrap();
    assert_eq!(player.value, 0);
}

#[test]
fn map_rows_start_again_at_the_left() {
    let mut lookup = Lookup::new();
    let mut rng = SmallRng::seed_from_u64(1);
    let warnings = level(&mut lookup, "MT\n\nW+~V", &mut rng);
    assert!(warnings.is_empty());
    assert_eq!(lookup.get_bottom(Point::new(0, 0)).1.description(), "a metal wall");
    assert_eq!(lookup.get_bottom(Point::new(1, 0)).1.terrain_value(), Some(Terrain::Tree));
    assert_eq!(lookup.get_bottom(Point::new(0, 2)).1.terrain_value(), Some(Terrain::DeepWater));
    assert_eq!(lookup.get_bottom(Point::new(1, 2)).1.terrain_value(), Some(Terrain::ClosedDoor));
    assert_eq!(lookup.get_bottom(Point::new(2, 2)).1.terrain_value(), Some(Terrain::ShallowWater));
    assert_eq!(lookup.get_bottom(Point::new(3, 2)).1.terrain_value(), Some(Terrain::Vitr));
    assert_eq!(lookup.cell(Point::new(0, 1)).len(), 1);
}

#[test]
fn npcs_and_items_stand_on_dirt() {
    let mut lookup = Lookup::new();
    let mut rng = SmallRng::seed_from_u64(3);
    let warnings = level(&mut lookup, "DIgoRpSab", &mut rng);
    assert!(warnings.is_empty());
    let expected = [
        "a royal guard",
        "Icarium Lifestealer, a mixed blood Jahgut. He looks extremely dangerous",
        "a low level guard",
        "a spectator",
        "the Emperor of a Thousand Deaths",
        "a pick-axe",
        "the Sword of Impending Doom",
        "a sign that says 'the Lesser Armory'",
        "a sign that says 'the Greater Armory'",
    ];
    for (x, description) in expected.iter().enumerate() {
        let loc = Point::new(x as i32, 0);
        assert_eq!(lookup.cell(loc).len(), 2);
        assert_eq!(lookup.get_bottom(loc).1.terrain_value(), Some(Terrain::Ground));
        assert_eq!(lookup.get_top(loc).1.description(), *description);
    }
    assert_eq!(lookup.npcs().len(), 5);
}

#[test]
fn extras_go_on_ground_without_characters() {
    let (mut lookup, _) = small_map();
    assert!(!place_extra(&mut lookup, ObjectName::LeatherHat, Point::new(0, 0)));
    assert!(!place_extra(&mut lookup, ObjectName::LeatherHat, Point::new(1, 0)));
    assert!(!place_extra(&mut lookup, ObjectName::LeatherHat, Point::new(9, 9)));
    assert!(place_extra(&mut lookup, ObjectName::LeatherHat, Point::new(0, 1)));
    assert_eq!(ids(lookup.cell(Point::new(0, 1))), vec![4, 8]);
    assert_eq!(lookup.get_top(Point::new(0, 1)).1.description(), "a leather hat");
}

#[test]
fn extras_are_counted() {
    let (mut lookup, _) = small_map();
    let mut rng = SmallRng::seed_from_u64(11);
    let placed = add_extra(&mut lookup, ObjectName::LeatherChest, 3, &mut rng);
    assert!(placed <= 3);
    let mut found = 0;
    for x in 0..3 {
        for y in 0..2 {
            let loc = Point::new(x, y);
            for oid in lookup.cell(loc).iter() {
                if oid.value >= 8 {
                    found += 1;
                    assert_eq!(lookup.get_bottom(loc).1.terrain_value(), Some(Terrain::Ground));
                    assert_eq!(lookup.obj(*oid).0.description(), "a leather chest");
                }
            }
        }
    }
    assert_eq!(found, placed);
}

#[test]
fn unknown_map_characters_are_warned_about_in_order() {
    let mut lookup = Lookup::new();
    let mut rng = SmallRng::seed_from_u64(5);
    let warnings = level(&mut lookup, "x#\nzy", &mut rng);
    let texts: Vec<&str> = warnings.iter().map(|m| m.text.as_str()).collect();
    assert_eq!(texts, vec!["Ignoring map char 'x'", "Ignoring map char 'z'", "Ignoring map char 'y'"]);
    assert!(warnings.iter().all(|m| m.topic == Topic::Error));
    // Each unknown character still puts down dirt.
    assert_eq!(lookup.get_bottom(Point::new(0, 1)).1.terrain_value(), Some(Terrain::Ground));
}
