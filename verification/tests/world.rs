use one_thousand_deaths::ai::Acted;
use one_thousand_deaths::char_to_loc::{CharToLoc, Event};
use one_thousand_deaths::content::Content;
use one_thousand_deaths::make::new_obj;
use one_thousand_deaths::message::Topic;
use one_thousand_deaths::object::ObjectName;
use one_thousand_deaths::objects::{Character, Portable, Terrain as ObjTerrain};
use one_thousand_deaths::oid::Oid;
use one_thousand_deaths::oid_to_obj::OidToObj;
use one_thousand_deaths::old_pov::OldContent;
use one_thousand_deaths::player::{bump, loc, Direction, State};
use one_thousand_deaths::player_actions::player_can_traverse;
use one_thousand_deaths::point::Point;
use one_thousand_deaths::relation::{Relation3, RelationTag3, Terrain3};
use one_thousand_deaths::render::{player_hps, player_loc, recent_messages};
use one_thousand_deaths::scheduler::Scheduler;
use one_thousand_deaths::sound::{loud, none, quiet, responded_to_noise, very_quiet};
use one_thousand_deaths::tag::{Behavior, Tag};
use one_thousand_deaths::time::{cardinal_move, diagnol_move, fuzzed, min_time, secs, Time};
use rand::rngs::SmallRng;
use rand::SeedableRng;

fn state_at(x: i32, y: i32) -> State {
    let mut char_to_loc = CharToLoc::new();
    char_to_loc.process(Event::AddChar(Oid::without_tag(0), Point::new(x, y)));
    State { messages: Vec::new(), char_to_loc }
}

#[test]
fn bump_moves_the_player() {
    let mut state = state_at(5, 5);
    bump(&mut state, Direction::NorthEast);
    assert_eq!(loc(&state), Point::new(6, 4));
    bump(&mut state, Direction::South);
    assert_eq!(player_loc(&state), Point::new(6, 5));
    assert!(state.messages.is_empty());
}

#[test]
fn bump_off_the_map_is_refused() {
    let mut state = state_at(0, 3);
    bump(&mut state, Direction::West);
    assert_eq!(loc(&state), Point::new(0, 3));
    assert_eq!(state.messages.len(), 1);
    assert_eq!(state.messages[0].topic, Topic::Failed);
    assert_eq!(state.messages[0].text, "Can't move there");
}

#[test]
fn recent_messages_are_the_newest() {
    let mut state = state_at(0, 0);
    for _ in 0..3 {
        bump(&mut state, Direction::NorthWest);
    }
    assert_eq!(recent_messages(&state, 2).len(), 2);
    assert_eq!(recent_messages(&state, 10).len(), 3);
    assert_eq!(recent_messages(&state, 0).len(), 0);
    assert_eq!(player_hps(&state), (100, 100));
}

#[test]
fn scheduler_gives_the_player_the_first_move() {
    let mut rng = SmallRng::seed_from_u64(3);
    let mut scheduler = Scheduler::new();
    scheduler.add(Oid::without_tag(0), min_time());
    scheduler.add(Oid::without_tag(7), Time::zero());
    scheduler.add(Oid::without_tag(8), secs(-20));
    scheduler.start_round(&mut rng);
    let first = scheduler.next_in_round().unwrap();
    assert_eq!(first.oid, Oid::without_tag(0));
    assert!(scheduler.next_in_round().is_none());

    scheduler.player_acted(cardinal_move(), fuzzed(790));
    scheduler.advance_time();
    assert_eq!(scheduler.now(), diagnol_move());
    scheduler.start_round(&mut rng);
    let mut oids = Vec::new();
    while let Some(e) = scheduler.next_in_round() {
        oids.push(e.oid.value);
        assert!(min_time().le(&e.units));
    }
    oids.sort();
    // The player has 100 - 790 + 1130 = 440 units and the NPC 1130; the other object
    // is still below the minimum.
    assert_eq!(oids, vec![0, 7]);

    scheduler.force_acted(Oid::without_tag(7), min_time(), fuzzed(-3));
    scheduler.remove(Oid::without_tag(8));
    scheduler.force_acted(Oid::without_tag(8), min_time(), fuzzed(100));
}

#[test]
fn fuzzed_time_always_advances() {
    assert_eq!(fuzzed(0).ticks(), 1);
    assert_eq!(fuzzed(-50).ticks(), 1);
    assert_eq!(fuzzed(812).ticks(), 812);
    assert_eq!(secs(3).ticks(), 300);
    assert_eq!(cardinal_move().plus(diagnol_move()).ticks(), 1930);
    assert!(Time::zero().lt(&min_time()));
}

#[test]
fn sounds_add_up() {
    assert_eq!(none().plus(quiet()), quiet());
    assert_eq!(very_quiet().plus(very_quiet()).plus(very_quiet()), very_quiet().plus(very_quiet().plus(very_quiet())));
    assert!(quiet() < loud());
}

#[test]
fn sleeping_and_wandering_npcs_respond_to_noise() {
    let origin = Point::new(1, 1);
    let guard = new_obj(ObjectName::Guard);
    assert!(responded_to_noise(&guard, &origin));
    let mut busy = new_obj(ObjectName::Guard);
    busy.replace(Tag::Behavior(Behavior::MovingTo(origin)));
    assert!(!responded_to_noise(&busy, &origin));
    let spectator = new_obj(ObjectName::Spectator);
    assert!(!responded_to_noise(&spectator, &origin));
    let wall = new_obj(ObjectName::StoneWall);
    assert!(!responded_to_noise(&wall, &origin));
}

#[test]
fn old_content_keeps_the_top_portable() {
    let content = Content {
        terrain: ObjTerrain::Dirt,
        character: Some(Character::Guard),
        portables: vec![Portable::WeakSword, Portable::MightySword],
    };
    let old = OldContent::new(&content);
    assert_eq!(old.terrain, ObjTerrain::Dirt);
    assert_eq!(old.character, Some(Character::Guard));
    assert_eq!(old.portables, Some(Portable::MightySword));
    let empty = Content { terrain: ObjTerrain::Wall, character: None, portables: vec![] };
    assert_eq!(OldContent::new(&empty).portables, None);
    assert_eq!(ObjTerrain::default(), ObjTerrain::Wall);
}

#[test]
fn relations_have_tags() {
    assert_eq!(Relation3::Terrain3(Terrain3::Dirt).tag(), RelationTag3::Terrain3);
    assert_eq!(Relation3::Location(Point::new(1, 2)).tag(), RelationTag3::Location);
    assert_eq!(Relation3::Objects(Vec::new()).tag(), RelationTag3::Objects);
}

#[test]
fn acted_carries_the_time() {
    match Acted::Acted(secs(2)) {
        Acted::Acted(t) => assert_eq!(t.ticks(), 200),
        _ => panic!("expected a time"),
    }
}

#[test]
fn what_the_player_cannot_walk_onto() {
    assert_eq!(player_can_traverse(ObjTerrain::Dirt), None);
    assert_eq!(player_can_traverse(ObjTerrain::OpenDoor), None);
    assert_eq!(player_can_traverse(ObjTerrain::Rubble), None);
    assert_eq!(player_can_traverse(ObjTerrain::ShallowWater), None);
    assert_eq!(player_can_traverse(ObjTerrain::ClosedDoor), Some(""));
    assert_eq!(player_can_traverse(ObjTerrain::DeepWater), Some("The water is too deep."));
    assert_eq!(player_can_traverse(ObjTerrain::Tree), Some("The tree is too big."));
    assert_eq!(player_can_traverse(ObjTerrain::Vitr), Some("Why would you want to do that?"));
    assert_eq!(player_can_traverse(ObjTerrain::Wall), Some("You bump the wall."));
}

#[test]
fn created_objects_get_ids_in_order() {
    let mut view = OidToObj::new();
    assert_eq!(view.last_oid(), Oid::without_tag(0));
    view.process(Event::Create(ObjectName::Guard));
    assert_eq!(view.last_oid(), Oid::without_tag(2));
    view.process(Event::Create(ObjectName::Player));
    assert_eq!(view.last_oid(), Oid::without_tag(0));
    view.process(Event::Create(ObjectName::Dagger));
    assert_eq!(view.last_oid(), Oid::without_tag(3));
    assert_eq!(view.lookup(Oid::without_tag(2)).dname(), "Guard");
    assert_eq!(view.lookup(Oid::without_tag(0)).dname(), "Player");
    assert_eq!(view.lookup(Oid::without_tag(3)).dname(), "Dagger");
    // Events that place characters leave the view alone.
    view.process(Event::AddChar(Oid::without_tag(2), Point::new(1, 1)));
    assert_eq!(view.last_oid(), Oid::without_tag(3));
}

#[test]
fn default_time_is_zero() {
    let t = Time::default();
    assert_eq!(t, Time::zero());
    assert!(t.lt(&secs(1)));
    assert_eq!(t.plus(secs(2)), secs(2));
    assert_eq!(secs(2).minus(t), secs(2));
}
