use one_thousand_deaths::game::{built_in_level, check_level, new, try_with_level, with_level, MAX_MESSAGES};
use one_thousand_deaths::point::Point;
use one_thousand_deaths::shared::{Command, MessageKind, SnapshotArgs, Species, Terrain};

const SMALL_LEVEL: &str = "
#################
#               #
#@              #
#               #
#################";

#[test]
fn module_move_into_wall() {
    let mut game = with_level(SMALL_LEVEL, 1);
    game.execute(Command::Move(Point::new(0, 1)));
    game.execute(Command::Move(Point::new(-1, 0)));

    let args = SnapshotArgs::new();
    let expected = "     #     \n  #######  \n ######### \n ####..... \n ####..... \n#####@.....\n ######### \n ######### \n ######### \n  #######  \n     #     \n\nA wall is in the way.\n\n";
    assert_eq!(game.snapshot(args), expected);
}

#[test]
fn snapshot_args_defaults() {
    let args = SnapshotArgs::new();
    assert_eq!(args.radius, 5);
    assert_eq!(args.num_messages, 4);
}

#[test]
fn level_terrain_and_player() {
    let game = with_level(SMALL_LEVEL, 7);
    // The first line of the map is empty, so the top wall is row 0.
    assert_eq!(game.player_loc(), Point::new(1, 2));
    assert_eq!(game.get_terrain(Point::new(1, 2)), Terrain::Dirt);
    assert_eq!(game.get_terrain(Point::new(5, 1)), Terrain::Dirt);
    assert_eq!(game.get_terrain(Point::new(0, 0)), Terrain::RockWall);
    assert_eq!(game.get_terrain(Point::new(100, -100)), Terrain::RockWall);
    assert_eq!(game.messages().len(), 0);
}

#[test]
fn water_blocks_and_shallow_water_does_not() {
    let mut game = with_level("\n#####\n#@~_#\n#####", 3);
    assert_eq!(game.get_terrain(Point::new(2, 1)), Terrain::ShallowWater);
    assert_eq!(game.get_terrain(Point::new(3, 1)), Terrain::DeepWater);
    game.execute(Command::Move(Point::new(1, 0)));
    assert_eq!(game.player_loc(), Point::new(2, 1));
    assert_eq!(game.messages().len(), 0);
    game.execute(Command::Move(Point::new(1, 0)));
    assert_eq!(game.player_loc(), Point::new(2, 1));
    assert_eq!(game.messages().len(), 1);
    assert_eq!(game.messages()[0].kind, MessageKind::PlayerFailed);
    assert_eq!(game.messages()[0].text, "The water is too deep.");
}

#[test]
fn messages_keep_only_the_newest() {
    let mut game = with_level(SMALL_LEVEL, 1);
    for _ in 0..(MAX_MESSAGES + 5) {
        game.execute(Command::Move(Point::new(-1, 0)));
    }
    assert_eq!(game.messages().len(), MAX_MESSAGES);
    assert_eq!(game.player_loc(), Point::new(1, 2));
    for m in game.messages().iter() {
        assert_eq!(m.text, "A wall is in the way.");
    }
}

#[test]
fn tile_shows_player_and_terrain() {
    let game = with_level(SMALL_LEVEL, 1);
    let tile = game.tile(Point::new(1, 2)).unwrap();
    assert_eq!(tile.terrain, Terrain::Dirt);
    assert_eq!(tile.character, Some(Species::Human));
    assert!(tile.items.is_empty());
    let tile = game.tile(Point::new(2, 2)).unwrap();
    assert_eq!(tile.character, None);
    let tile = game.default();
    assert_eq!(tile.terrain, Terrain::RockWall);
    assert_eq!(tile.character, None);
}

#[test]
fn snapshot_without_map_or_messages() {
    let mut game = with_level(SMALL_LEVEL, 1);
    game.execute(Command::Move(Point::new(0, -1)));
    game.execute(Command::Move(Point::new(0, -1)));
    let args = SnapshotArgs { radius: 0, num_messages: 1 };
    assert_eq!(game.snapshot(args), "A wall is in the way.\n\n");
    let args = SnapshotArgs { radius: 0, num_messages: 0 };
    assert_eq!(game.snapshot(args), "");
    let args = SnapshotArgs { radius: 1, num_messages: 0 };
    assert_eq!(game.snapshot(args), " # \n#@.\n . \n\n");
}

#[test]
fn levels_are_checked() {
    assert!(check_level(SMALL_LEVEL));
    assert!(check_level(built_in_level()));
    assert!(!check_level("\n###\n#x#\n###"));
    assert!(!check_level("\n###\n# #\n###"));
    assert!(!check_level("\n####\n#@@#\n####"));
    assert!(try_with_level("\n#?#", 1).is_none());
    assert!(try_with_level("@", 1).is_some());
}

#[test]
fn built_in_game_starts() {
    let game = new(42).unwrap();
    assert_eq!(game.player_loc(), Point::new(20, 8));
    assert_eq!(game.get_terrain(Point::new(33, 9)), Terrain::ShallowWater);
    assert_eq!(game.get_terrain(Point::new(32, 10)), Terrain::ShallowWater);
    assert_eq!(game.get_terrain(Point::new(33, 10)), Terrain::DeepWater);
}

#[test]
fn find_neighbor_tries_each_neighbour() {
    let mut game = with_level(SMALL_LEVEL, 5);
    let start = Point::new(2, 2);
    let east = Point::new(3, 2);
    assert_eq!(game.find_neighbor(start, |p: &Point| *p == east), Some(east));
    // Whatever the order, the one accepted neighbour is found.
    for _ in 0..10 {
        assert_eq!(game.find_neighbor(start, |p: &Point| p.x == 1 && p.y == 1), Some(Point::new(1, 1)));
    }
    assert_eq!(game.find_neighbor(start, |p: &Point| *p == start), None);
    let found = game.find_neighbor(start, |p: &Point| p.y == 3).unwrap();
    assert_eq!(found.y, 3);
    assert!((found.x - start.x).abs() <= 1);
}

#[test]
fn an_ay_stands_in_a_dirt_cell() {
    let mut game = with_level("\n#####\n#@ A#\n#####", 2);
    assert_eq!(game.get_terrain(Point::new(3, 1)), Terrain::Dirt);
    assert_eq!(game.character_at(Point::new(3, 1)), Some(Species::Ay));
    assert_eq!(game.character_at(Point::new(1, 1)), Some(Species::Human));
    assert_eq!(game.character_at(Point::new(2, 1)), None);
    assert!(game.has_character(Point::new(3, 1)));
    assert!(!game.has_character(Point::new(2, 1)));
    let tile = game.tile(Point::new(3, 1)).unwrap();
    assert_eq!(tile.character, Some(Species::Ay));
    let args = SnapshotArgs { radius: 2, num_messages: 0 };
    assert_eq!(game.snapshot(args), "  #  \n ### \n##@.A\n ### \n  #  \n\n");
    // The player's character moves with the player.
    game.execute(Command::Move(Point::new(1, 0)));
    assert_eq!(game.player_loc(), Point::new(2, 1));
    assert_eq!(game.character_at(Point::new(1, 1)), None);
    assert_eq!(game.character_at(Point::new(2, 1)), Some(Species::Human));
    assert!(game.has_character(Point::new(3, 1)));
}

#[test]
fn built_in_game_has_ays() {
    let game = new(42).unwrap();
    assert_eq!(game.character_at(Point::new(43, 5)), Some(Species::Ay));
    assert_eq!(game.character_at(Point::new(13, 14)), Some(Species::Ay));
    assert_eq!(game.character_at(Point::new(39, 15)), Some(Species::Ay));
    assert_eq!(game.character_at(Point::new(20, 8)), Some(Species::Human));
    assert_eq!(game.get_terrain(Point::new(43, 5)), Terrain::Dirt);
}
