use spooky_maze::web_maze::{spawn_coordinate_of, Coin, Maze, Npc, WEB_COIN_COUNT, WEB_NPC_COUNT};

fn on_grid(v: i32) -> bool {
    (16..=1008).contains(&v) && v % 16 == 0
}

#[test]
fn spawn_coordinates() {
    assert_eq!(spawn_coordinate_of(0), 16);
    assert_eq!(spawn_coordinate_of(62), 1008);
    assert_eq!(spawn_coordinate_of(63), 16);
    assert_eq!(spawn_coordinate_of(255), (255 % 63 + 1) * 16);
    assert!((0..256).all(|r| on_grid(spawn_coordinate_of(r))));
}

#[test]
fn new_web_maze() {
    let maze = Maze::new(64, 64);
    assert_eq!(maze.offset, 65);
    assert_eq!((maze.visible_width, maze.visible_height), (21, 16));
    assert_eq!((maze.tile_width, maze.tile_height), (16, 16));
    assert!(maze.data.iter().all(|&t| t == 1));
    assert_eq!(maze.coins.len(), WEB_COIN_COUNT);
    assert!(maze.coins.iter().all(|c| *c == Coin::new(-1, -1)));
    assert_eq!(maze.npcs.len(), WEB_NPC_COUNT);
    assert!(maze.npcs.iter().all(|n| *n == Npc { x: -1, y: -1, vector_x: 0, vector_y: 0 }));
}

#[test]
fn random_bytes_and_placement() {
    let mut maze = Maze::new(64, 64);
    let r = maze.get_rand().expect("the system's random source");
    assert!((0..256).contains(&r));
    maze.generate_coins().expect("the system's random source");
    assert!(maze.coins.iter().all(|c| on_grid(c.x) && on_grid(c.y)));
    maze.generate_npcs().expect("the system's random source");
    assert!(maze.npcs.iter().all(|n| on_grid(n.x) && on_grid(n.y) && n.vector_x == 1 && n.vector_y == 1));
}

#[test]
fn web_maze_carving() {
    let mut maze = Maze::new(64, 64);
    maze.generate_maze(32, 32).expect("the system's random source");
    for y in 1..32usize {
        for x in 1..32usize {
            assert_eq!(maze.data[(x - 1) * 2 + (y - 1) * 2 * 64 + 65], 0);
        }
    }
    assert!(maze.data[..64].iter().all(|&t| t == 1));
}
