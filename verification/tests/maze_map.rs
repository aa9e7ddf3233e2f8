use spooky_maze::maze::{Coin, Maze, Npc, COIN_COUNT, MAZE_CELLS, NPC_COUNT};

fn carved_map(seed: u8) -> Maze {
    let mut maze = Maze::new(64, 64, Some([seed; 32]));
    maze.generate_maze(32, 32);
    maze
}

fn is_spawn_point(maze: &Maze, x: i32, y: i32) -> bool {
    if (x, y) == (1, 1) {
        return true;
    }
    x >= 0 && y >= 0 && x % 16 == 0 && y % 16 == 0 && x / 16 < 64 && y / 16 < 64
        && maze.data[((y / 16) * 64 + x / 16) as usize] == 0
}

#[test]
fn new_maze_is_all_wall_with_objects_parked() {
    let maze = Maze::new(64, 64, None);
    assert_eq!(maze.width, 64);
    assert_eq!(maze.height, 64);
    assert_eq!(maze.visible_width, 21);
    assert_eq!(maze.visible_height, 16);
    assert_eq!(maze.offset, 65);
    assert_eq!(maze.tile_width, 16);
    assert_eq!(maze.tile_height, 16);
    assert_eq!(maze.coin_counter, 100);
    assert_eq!(maze.data.len(), MAZE_CELLS);
    assert!(maze.data.iter().all(|&t| t == 1));
    assert_eq!(maze.coins.len(), COIN_COUNT);
    assert!(maze.coins.iter().all(|c| *c == Coin::new(-1, -1)));
    assert_eq!(maze.npcs.len(), NPC_COUNT);
    assert!(maze.npcs.iter().all(|n| *n == Npc { x: -1, y: -1, vector_x: 0, vector_y: 0, steps_remaining: 0 }));
    assert!(maze.walkers.iter().all(|c| *c == Coin::new(-1, -1)));
    assert!(maze.dynamites.iter().all(|c| *c == Coin::new(-1, -1)));
}

#[test]
fn carving_opens_every_cell_and_keeps_the_border() {
    let maze = carved_map(9);
    for y in 1..32usize {
        for x in 1..32usize {
            let index = (x - 1) * 2 + (y - 1) * 2 * 64 + 65;
            assert_eq!(maze.data[index], 0, "cell ({x}, {y})");
        }
    }
    for i in 0..64 {
        assert_eq!(maze.data[i], 1, "top row");
        assert_eq!(maze.data[i * 64], 1, "left column");
    }
}

#[test]
fn carving_opens_passages_between_cells() {
    let maze = carved_map(4);
    let mut open_between = 0;
    for y in 1..31usize {
        for x in 1..31usize {
            let index = (x - 1) * 2 + (y - 1) * 2 * 64 + 65;
            if maze.data[index + 1] == 0 {
                open_between += 1;
            }
            if maze.data[index + 64] == 0 {
                open_between += 1;
            }
        }
    }
    assert!(open_between > 0);
}

#[test]
fn objects_land_on_spawn_points() {
    let mut maze = carved_map(2);
    maze.generate_coins();
    maze.generate_walkers();
    maze.generate_dynamites();
    maze.generate_npcs();
    assert_eq!(maze.coin_counter, 100);
    for c in maze.coins.iter().chain(maze.walkers.iter()).chain(maze.dynamites.iter()) {
        assert!(is_spawn_point(&maze, c.x, c.y), "({}, {})", c.x, c.y);
    }
    for n in maze.npcs.iter() {
        assert!(is_spawn_point(&maze, n.x, n.y));
        assert!(matches!((n.vector_x, n.vector_y), (1, 0) | (-1, 0) | (0, 1) | (0, -1)));
        assert!((1..=4).contains(&n.steps_remaining));
    }
}

#[test]
fn random_numbers_stay_below_255() {
    let mut maze = Maze::new(64, 64, Some([1u8; 32]));
    for _ in 0..1000 {
        let r = maze.get_rand();
        assert!((0..255).contains(&r));
    }
}

#[test]
fn removing_a_coin_counts_it_once() {
    let mut maze = Maze::new(64, 64, None);
    maze.coins[3] = Coin::new(32, 48);
    maze.coins[7] = Coin::new(32, 48);
    maze.coins[9] = Coin::new(16, 48);
    assert_eq!(maze.get_coin_at(32, 48), Some(Coin::new(32, 48)));
    maze.remove_coin(Coin::new(32, 48));
    assert_eq!(maze.coin_counter, 98);
    assert_eq!(maze.get_coin_at(32, 48), None);
    assert_eq!(maze.coins[3], Coin::new(-1, -1));
    assert_eq!(maze.coins[9], Coin::new(16, 48));
    // a second removal at the same place changes nothing
    maze.remove_coin(Coin::new(32, 48));
    assert_eq!(maze.coin_counter, 98);
    assert_eq!(maze.get_coin_at(16, 48), Some(Coin::new(16, 48)));
}

#[test]
fn relocating_coins_brings_removed_ones_back() {
    let mut maze = carved_map(5);
    maze.generate_coins();
    maze.coins[0] = Coin::new(-1, -1);
    maze.coins[1] = Coin::new(-1, -1);
    maze.coins[2] = Coin::new(-1, -1);
    maze.coin_counter = 97;
    maze.relocate_coins(2);
    assert_eq!(maze.coin_counter, 99);
    assert!(is_spawn_point(&maze, maze.coins[0].x, maze.coins[0].y));
    assert!(is_spawn_point(&maze, maze.coins[1].x, maze.coins[1].y));
    assert_eq!(maze.coins[2], Coin::new(-1, -1));
    maze.relocate_coins(0);
    assert_eq!(maze.coin_counter, 100);
    assert!(maze.coins.iter().all(|c| is_spawn_point(&maze, c.x, c.y)));
}

#[test]
fn walkers_and_dynamite_move_away_when_met() {
    let mut maze = carved_map(6);
    maze.walkers[2] = Coin::new(80, 80);
    maze.dynamites[0] = Coin::new(96, 96);
    assert_eq!(maze.get_walker_at(80, 80), Some(Coin::new(80, 80)));
    assert_eq!(maze.get_dynamite_at(96, 96), Some(Coin::new(96, 96)));
    assert_eq!(maze.get_walker_at(81, 80), None);
    maze.relocate_walker(Coin::new(80, 80));
    maze.relocate_dynamite(Coin::new(96, 96));
    assert!(is_spawn_point(&maze, maze.walkers[2].x, maze.walkers[2].y));
    assert!(is_spawn_point(&maze, maze.dynamites[0].x, maze.dynamites[0].y));
}

#[test]
fn npcs_are_found_by_position() {
    let mut maze = Maze::new(64, 64, None);
    maze.npcs[4] = Npc { x: 48, y: 64, vector_x: 1, vector_y: 0, steps_remaining: 2 };
    assert_eq!(maze.get_npc_at(48, 64), Some(maze.npcs[4]));
    assert_eq!(maze.get_npc_at(48, 65), None);
}

#[test]
fn collisions_with_the_map() {
    let mut maze = Maze::new(64, 64, None);
    maze.data[2 * 64 + 3] = 0;
    assert_eq!(maze.playable_bounds(), (0, 0, 1024, 1024));
    assert!(maze.check_boundary_collision(-1, 5));
    assert!(maze.check_boundary_collision(5, 1024));
    assert!(!maze.check_boundary_collision(1023, 0));
    assert!(!maze.check_wall_collision(3 * 16, 2 * 16));
    assert!(!maze.check_wall_collision(3 * 16 + 15, 2 * 16 + 15));
    assert!(maze.check_wall_collision(4 * 16, 2 * 16));
    assert!(maze.check_wall_collision(-16, 0));
    assert_eq!(maze.walkable_tile_position(3, 2), Some((48, 32)));
    assert_eq!(maze.walkable_tile_position(4, 2), None);
}

#[test]
fn setting_tiles_and_dynamite() {
    let mut maze = Maze::new(64, 64, None);
    maze.set_tile_at(40, 24, 0);
    assert_eq!(maze.data[1 * 64 + 2], 0);
    // pixel coordinates are divided rounding towards zero: -5 is still column 0
    maze.set_tile_at(-5, 24, 0);
    assert_eq!(maze.data[64], 0);
    maze.set_tile_at(-20, 24, 0);
    maze.set_tile_at(2000, 24, 0);
    assert_eq!(maze.data.iter().filter(|&&t| t == 0).count(), 2);
    maze.place_dynamite(80, 80);
    for (tx, ty) in [(4, 4), (5, 4), (6, 4), (4, 5), (6, 5), (4, 6), (5, 6), (6, 6)] {
        assert_eq!(maze.data[ty * 64 + tx], 2, "tile ({tx}, {ty})");
    }
    assert_eq!(maze.data[5 * 64 + 5], 1);
}

#[test]
fn npcs_walk_until_a_wall() {
    let mut maze = Maze::new(64, 64, None);
    maze.data[2 * 64 + 2] = 0;
    maze.data[2 * 64 + 3] = 0;
    maze.npcs[0] = Npc { x: 32, y: 32, vector_x: 1, vector_y: 0, steps_remaining: 3 };
    maze.npcs[1] = Npc { x: 48, y: 32, vector_x: 1, vector_y: 0, steps_remaining: 3 };
    maze.move_npcs();
    assert_eq!(maze.npcs[0], Npc { x: 48, y: 32, vector_x: 1, vector_y: 0, steps_remaining: 3 });
    let blocked = maze.npcs[1];
    assert_eq!((blocked.x, blocked.y, blocked.steps_remaining), (48, 32, 3));
    assert!((-1..=1).contains(&blocked.vector_x) && (-1..=1).contains(&blocked.vector_y));
    assert!(!(blocked.vector_x == 0 && blocked.vector_y == 0));
}

#[test]
fn an_all_ground_map_never_gives_the_fallback() {
    let mut maze = Maze::new(64, 64, Some([5u8; 32]));
    for t in maze.data.iter_mut() {
        *t = 0;
    }
    for _ in 0..200 {
        let (x, y) = maze.get_random_coordinates();
        assert_eq!((x % 16, y % 16), (0, 0));
        assert!((0..64 * 16).contains(&x) && (0..64 * 16).contains(&y));
    }
    maze.generate_coins();
    maze.generate_walkers();
    maze.generate_dynamites();
    maze.generate_npcs();
    let spots = maze
        .coins
        .iter()
        .chain(maze.walkers.iter())
        .chain(maze.dynamites.iter())
        .map(|c| (c.x, c.y))
        .chain(maze.npcs.iter().map(|n| (n.x, n.y)));
    for (x, y) in spots {
        assert_eq!((x % 16, y % 16), (0, 0), "object at ({x}, {y})");
    }
}
