use one_thousand_deaths::path_find::PathFind;
use one_thousand_deaths::point::Point;
use one_thousand_deaths::time::{cardinal_move, diagnol_move};

struct Grid {
    cells: Vec<Vec<char>>,
    width: i32,
    height: i32,
}

impl Grid {
    fn get(&self, loc: Point) -> char {
        self.cells[loc.y as usize][loc.x as usize]
    }
}

fn build_map(rows: Vec<&'static str>) -> (Point, Point, Grid) {
    let width = rows[0].len() as i32;
    let height = rows.len() as i32;
    let mut start = Point::origin();
    let mut target = Point::origin();
    let mut cells = Vec::new();
    for (v, row) in rows.iter().enumerate() {
        let mut line = Vec::new();
        for (h, ch) in (*row).chars().enumerate() {
            let pt = Point::new(h as i32, v as i32);
            if ch == 'S' {
                start = pt;
                line.push('.');
            } else if ch == 'T' {
                target = pt;
                line.push('.');
            } else {
                line.push(ch);
            }
        }
        cells.push(line);
    }
    (start, target, Grid { cells, width, height })
}

fn successors(map: &Grid, loc: Point) -> Vec<(Point, i64)> {
    let mut neighbors = Vec::new();
    let deltas = vec![(-1, -1), (-1, 1), (-1, 0), (1, -1), (1, 1), (1, 0), (0, -1), (0, 1)];
    for delta in deltas {
        let new_loc = Point::new(loc.x + delta.0, loc.y + delta.1);
        if new_loc.x >= 0 && new_loc.y >= 0 && new_loc.x < map.width && new_loc.y < map.height {
            if map.get(new_loc) == '~' {
                neighbors.push((new_loc, cardinal_move().ticks() * 5));
            } else if map.get(new_loc) != '#' {
                if delta.0 != 0 && delta.1 != 0 {
                    neighbors.push((new_loc, diagnol_move().ticks()));
                } else {
                    neighbors.push((new_loc, cardinal_move().ticks()));
                }
            }
        }
    }
    neighbors
}

#[test]
fn test_no_solution() {
    let rows = vec![
        "..............",
        "..............",
        "......######..",
        "......#....#..",
        "......#....#..",
        ".S....#..T.#..",
        "......######..",
        "..............",
        "..............",
    ];
    let (start, target, map) = build_map(rows);
    let find = PathFind::new(start, target, |loc: Point| successors(&map, loc));
    let actual = find.path();

    let expected: Vec<Point> = Vec::new();
    assert_eq!(*actual, expected);
    assert_eq!(find.distance(), None);
    assert_eq!(find.next(), None);
}

#[test]
fn test_neighbor() {
    let rows = vec!["....", "....", "....", "....", "....", ".ST.", "....", "....", "...."];
    let (start, target, map) = build_map(rows);
    let find = PathFind::new(start, target, |loc: Point| successors(&map, loc));
    let actual = find.path();

    let expected = vec![Point::new(1, 5), Point::new(2, 5)];
    assert_eq!(*actual, expected);
    assert_eq!(find.distance(), Some(800));
    assert_eq!(find.next(), Some(Point::new(2, 5)));
}

#[test]
fn test_coincident() {
    let rows = vec!["....", "....", "....", "....", "....", ".ST.", "....", "....", "...."];
    let (start, _, map) = build_map(rows);
    let find = PathFind::new(start, start, |loc: Point| successors(&map, loc));
    let actual = find.path();

    let expected = vec![Point::new(1, 5)];
    assert_eq!(*actual, expected);
    assert_eq!(find.distance(), Some(0));
    assert_eq!(find.next(), None);
}

#[test]
fn test_column() {
    let rows = vec![
        "............",
        "............",
        "......#.....",
        "......#.....",
        "......#.....",
        ".S....#..T..",
        "......#.....",
        "............",
        "............",
    ];
    let (start, target, map) = build_map(rows);
    let find = PathFind::new(start, target, |loc: Point| successors(&map, loc));
    let actual = find.path();

    let expected = vec![
        Point::new(1, 5),
        Point::new(2, 5),
        Point::new(3, 5),
        Point::new(4, 5),
        Point::new(5, 6),
        Point::new(6, 7),
        Point::new(7, 7),
        Point::new(8, 6),
        Point::new(9, 5),
    ];
    assert_eq!(*actual, expected);
}

#[test]
fn test_bad_terrain() {
    let rows = vec![
        "............",
        "............",
        "......~.....",
        "......~.....",
        "......~~~~..",
        ".S....~~T~..",
        "......~~~~..",
        "............",
        "............",
    ];
    let (start, target, map) = build_map(rows);
    let find = PathFind::new(start, target, |loc: Point| successors(&map, loc));
    let actual = find.path();

    let expected = vec![
        Point::new(1, 5),
        Point::new(2, 5),
        Point::new(3, 5),
        Point::new(4, 5),
        Point::new(5, 6),
        Point::new(6, 7),
        Point::new(7, 6),
        Point::new(8, 5),
    ];
    assert_eq!(*actual, expected);
}

#[test]
fn test_hole() {
    let rows = vec![
        "..............",
        "..............",
        "......######..",
        "......#.......",
        "......#....#..",
        ".S....#..T.#..",
        "......######..",
        "..............",
        "..............",
    ];
    let (start, target, map) = build_map(rows);
    let find = PathFind::new(start, target, |loc: Point| successors(&map, loc));
    let actual = find.path();

    let expected = vec![
        Point::new(1, 5),
        Point::new(2, 5),
        Point::new(3, 4),
        Point::new(4, 3),
        Point::new(5, 2),
        Point::new(6, 1),
        Point::new(7, 1),
        Point::new(8, 1),
        Point::new(9, 1),
        Point::new(10, 1),
        Point::new(11, 1),
        Point::new(12, 2),
        Point::new(11, 3),
        Point::new(10, 4),
        Point::new(9, 5),
    ];
    assert_eq!(*actual, expected);
}

#[test]
fn path_cost_is_sum_of_steps() {
    // Three cardinal moves and a diagonal one: the cheapest way around the corner.
    let rows = vec![".....", ".S...", ".....", "....T"];
    let (start, target, map) = build_map(rows);
    let find = PathFind::new(start, target, |loc: Point| successors(&map, loc));
    assert_eq!(find.distance(), Some(1130 * 2 + 800));
    assert_eq!(find.path().len(), 4);
    assert_eq!(find.path()[0], start);
    assert_eq!(*find.path().last().unwrap(), target);
}

#[test]
fn paths_never_revisit_a_point() {
    let (start, target, map) = build_map(vec![
        "..............",
        "......######..",
        "......#.......",
        ".S....#..T.#..",
        "......######..",
        "..............",
    ]);
    let find = PathFind::new(start, target, |loc| successors(&map, loc));
    let path = find.path();
    assert!(!path.is_empty());
    assert_eq!(path[0], start);
    assert_eq!(*path.last().unwrap(), target);
    for i in 0..path.len() {
        for j in (i + 1)..path.len() {
            assert_ne!(path[i], path[j]);
        }
    }
}
