use spooky_maze::recursive_backtracking::{Coordinates, Direction, FieldType, Generator, Maze, RbGenerator};

fn passages_of(maze: &Maze, x: i32, y: i32) -> Vec<Direction> {
    let field = maze.get_field(&Coordinates::new(x, y)).expect("cell inside the maze");
    let mut out = Vec::new();
    for d in Direction::all() {
        if field.has_passage(&d) {
            out.push(d);
        }
    }
    out
}

fn reachable_count(maze: &Maze) -> usize {
    let (w, h) = maze.size;
    let mut seen = vec![false; (w * h) as usize];
    let mut stack = vec![(0i32, 0i32)];
    seen[0] = true;
    let mut count = 0;
    while let Some((x, y)) = stack.pop() {
        count += 1;
        for d in passages_of(maze, x, y) {
            let n = Coordinates::new(x, y).next(&d);
            assert!(n.x >= 0 && n.x < w && n.y >= 0 && n.y < h, "passage leaves the grid");
            let i = (n.y * w + n.x) as usize;
            if !seen[i] {
                seen[i] = true;
                stack.push((n.x, n.y));
            }
        }
    }
    count
}

#[test]
fn opposite_directions() {
    assert_eq!(Direction::North.opposite(), Direction::South);
    assert_eq!(Direction::East.opposite(), Direction::West);
    assert_eq!(Direction::South.opposite(), Direction::North);
    assert_eq!(Direction::West.opposite(), Direction::East);
    for d in Direction::all() {
        assert_eq!(d.opposite().opposite(), d);
    }
}

#[test]
fn all_directions_in_order() {
    assert_eq!(Direction::all(), [Direction::North, Direction::East, Direction::South, Direction::West]);
}

#[test]
fn next_coordinates() {
    let c = Coordinates::new(3, 7);
    assert_eq!(c.next(&Direction::North), Coordinates::new(3, 6));
    assert_eq!(c.next(&Direction::South), Coordinates::new(3, 8));
    assert_eq!(c.next(&Direction::East), Coordinates::new(4, 7));
    assert_eq!(c.next(&Direction::West), Coordinates::new(2, 7));
    for d in Direction::all() {
        assert_eq!(c.next(&d).next(&d.opposite()), c);
    }
    assert_eq!(Coordinates::from_pair((5, -2)).to_pair(), (5, -2));
}

#[test]
fn generated_maze_has_requested_size_and_start() {
    let mut generator = RbGenerator::new(Some([7u8; 32]));
    let maze = generator.generate(6, 4);
    assert_eq!(maze.size, (6, 4));
    assert_eq!(maze.start, Coordinates::new(0, 0));
    assert!(maze.goal.x >= 0 && maze.goal.x < 6 && maze.goal.y >= 0 && maze.goal.y < 4);
}

#[test]
fn every_cell_is_reachable_from_the_start() {
    for seed in 0u8..8 {
        let mut generator = RbGenerator::new(Some([seed; 32]));
        let maze = generator.generate(9, 7);
        assert_eq!(reachable_count(&maze), 63);
    }
}

#[test]
fn passages_run_both_ways() {
    let mut generator = RbGenerator::new(Some([3u8; 32]));
    let maze = generator.generate(8, 8);
    for y in 0..8 {
        for x in 0..8 {
            for d in passages_of(&maze, x, y) {
                let n = Coordinates::new(x, y).next(&d);
                assert!(passages_of(&maze, n.x, n.y).contains(&d.opposite()));
            }
        }
    }
}

#[test]
fn a_perfect_maze_has_one_passage_fewer_than_cells() {
    let mut generator = RbGenerator::new(Some([11u8; 32]));
    let maze = generator.generate(10, 5);
    let mut ends = 0;
    for y in 0..5 {
        for x in 0..10 {
            ends += passages_of(&maze, x, y).len();
        }
    }
    assert_eq!(ends / 2, 49);
}

#[test]
fn the_same_seed_gives_the_same_maze() {
    let mut a = RbGenerator::new(Some([42u8; 32]));
    let mut b = RbGenerator::new(Some([42u8; 32]));
    let ma = a.generate(12, 9);
    let mb = b.generate(12, 9);
    assert_eq!(ma.goal, mb.goal);
    for y in 0..9 {
        for x in 0..12 {
            assert_eq!(passages_of(&ma, x, y), passages_of(&mb, x, y));
        }
    }
}

#[test]
fn fields_outside_the_maze_are_none() {
    let mut generator = RbGenerator::new(Some([1u8; 32]));
    let maze = generator.generate(3, 3);
    assert!(maze.get_field(&Coordinates::new(3, 0)).is_none());
    assert!(maze.get_field(&Coordinates::new(0, -1)).is_none());
    assert!(maze.get_field(&Coordinates::new(2, 2)).is_some());
}

#[test]
fn field_kinds() {
    let mut generator = RbGenerator::new(Some([5u8; 32]));
    let maze = generator.generate(5, 5);
    let start = maze.get_field(&Coordinates::new(0, 0)).unwrap();
    assert!(matches!(start.field_type, FieldType::Start));
    assert_eq!(start.coordinates, Coordinates::new(0, 0));
    if maze.goal != maze.start {
        let goal = maze.get_field(&maze.goal).unwrap();
        assert!(matches!(goal.field_type, FieldType::Goal));
    }
}

#[test]
fn a_single_cell_maze() {
    let mut generator = RbGenerator::new(None);
    let maze = generator.generate(1, 1);
    assert_eq!(maze.goal, Coordinates::new(0, 0));
    assert!(passages_of(&maze, 0, 0).is_empty());
}

#[test]
fn coordinates_from_and_into_pairs() {
    let c: Coordinates = (3, -4).into();
    assert_eq!(c, Coordinates::new(3, -4));
    let p: (i32, i32) = c.into();
    assert_eq!(p, (3, -4));
}
