use spooky_maze::maze::{Coin, Maze, Npc};
use spooky_maze::systems::{
    detect_coin_collision, detect_dynamite_collision, detect_npc_collision, detect_walker_collision,
    find_safe_teleport_location, handle_dynamite_collision, handle_npc_collision, handle_player_teleport,
    handle_walker_collision, process_player_input, regenerate_teleport_charges, remove_coin_on_collision, setup,
    tile_texture_at, update_game, CoinCollisionMessage, DynamiteCollisionMessage, HudState, NpcCollisionEvent,
    TileTexture, WalkerCollisionMessage,
};

fn carved_map() -> Maze {
    let mut maze = Maze::new(64, 64, Some([8u8; 32]));
    maze.generate_maze(32, 32);
    maze
}

fn open_map() -> Maze {
    let mut maze = Maze::new(64, 64, None);
    // a corridor along tile row 2, tiles 2..=6
    for tx in 2..=6 {
        maze.data[2 * 64 + tx] = 0;
    }
    maze
}

#[test]
fn hud_defaults() {
    assert_eq!(
        HudState::default(),
        HudState { coins_left: 100, teleport_countdown: 100, walker_timer: 0, dynamites: 0 }
    );
}

#[test]
fn coin_collisions_are_detected_and_counted() {
    let mut maze = Maze::new(64, 64, None);
    maze.coins[0] = Coin::new(32, 32);
    maze.coins[5] = Coin::new(32, 32);
    let events = detect_coin_collision(&maze, 32, 32);
    assert_eq!(events, vec![CoinCollisionMessage { coin_x: 32, coin_y: 32 }; 2]);
    assert!(detect_coin_collision(&maze, 48, 32).is_empty());
    let mut hud = HudState::default();
    remove_coin_on_collision(&mut maze, &mut hud, events[0]);
    assert_eq!(maze.coin_counter, 98);
    assert_eq!(hud.coins_left, 98);
    assert!(detect_coin_collision(&maze, 32, 32).is_empty());
}

#[test]
fn dynamite_and_walker_collisions() {
    let mut maze = carved_map();
    maze.dynamites[0] = Coin::new(64, 64);
    maze.walkers[1] = Coin::new(80, 64);
    assert_eq!(detect_dynamite_collision(&maze, 64, 64), vec![DynamiteCollisionMessage { x: 64, y: 64 }]);
    assert_eq!(detect_walker_collision(&maze, 80, 64), vec![WalkerCollisionMessage { walker_x: 80, walker_y: 64 }]);
    handle_dynamite_collision(&mut maze, DynamiteCollisionMessage { x: 64, y: 64 });
    let moved_to = handle_walker_collision(&mut maze, WalkerCollisionMessage { walker_x: 80, walker_y: 64 });
    assert_eq!(maze.walkers[1], Coin::new(moved_to.0, moved_to.1));
    let d = maze.dynamites[0];
    assert!((d.x, d.y) == (1, 1) || maze.data[((d.y / 16) * 64 + d.x / 16) as usize] == 0);
}

#[test]
fn npc_collision_sends_the_player_away() {
    let mut maze = carved_map();
    maze.npcs[2] = Npc { x: 96, y: 96, vector_x: 0, vector_y: 1, steps_remaining: 1 };
    assert_eq!(detect_npc_collision(&maze, 96, 96), vec![NpcCollisionEvent { npc_x: 96, npc_y: 96 }]);
    assert!(detect_npc_collision(&maze, 97, 96).is_empty());
    let coins_before = maze.coins.clone();
    let (x, y) = handle_npc_collision(&mut maze);
    assert_eq!((x % 16, y % 16), (0, 0));
    assert_eq!(maze.data[((y / 16) * 64 + x / 16) as usize], 0);
    assert_eq!(maze.coins, coins_before);
}

#[test]
fn npc_collision_finds_the_only_ground_tile() {
    // one ground tile among 4096: the random draws almost never hit it,
    // and the scan that follows them must
    let mut maze = Maze::new(64, 64, Some([3u8; 32]));
    maze.data[40 * 64 + 17] = 0;
    let npcs_before = maze.npcs.clone();
    assert_eq!(handle_npc_collision(&mut maze), (17 * 16, 40 * 16));
    assert_eq!(maze.npcs, npcs_before);
}

#[test]
fn npc_collision_on_a_map_without_ground_keeps_the_fallback() {
    let mut maze = Maze::new(64, 64, Some([3u8; 32]));
    assert_eq!(handle_npc_collision(&mut maze), (1, 1));
}

#[test]
fn player_moves_along_free_axes_only() {
    let maze = open_map();
    // standing on tile (3, 2)
    assert_eq!(process_player_input(&maze, 48, 32, 16, 0), Some((64, 32)));
    assert_eq!(process_player_input(&maze, 48, 32, -16, 0), Some((32, 32)));
    // the row above is wall
    assert_eq!(process_player_input(&maze, 48, 32, 0, -16), None);
    // diagonal: only the x part is free
    assert_eq!(process_player_input(&maze, 48, 32, 16, 16), Some((64, 32)));
    // the corridor ends at tile 6
    assert_eq!(process_player_input(&maze, 96, 32, 16, 0), None);
    assert_eq!(process_player_input(&maze, 48, 32, 0, 0), None);
}

#[test]
fn a_move_can_be_undone() {
    let maze = open_map();
    let there = process_player_input(&maze, 48, 32, 16, 0).unwrap();
    assert_eq!(process_player_input(&maze, there.0, there.1, -16, 0), Some((48, 32)));
}

#[test]
fn teleport_finds_the_first_open_place() {
    let mut maze = Maze::new(64, 64, None);
    assert_eq!(find_safe_teleport_location(&maze), None);
    // the scan starts at tile (21 - 5, 21 - 5) and runs 10 tiles per row
    maze.data[17 * 64 + 18] = 0;
    maze.data[18 * 64 + 16] = 0;
    assert_eq!(find_safe_teleport_location(&maze), Some((18 * 16, 17 * 16)));
    maze.data[16 * 64 + 25] = 0;
    assert_eq!(find_safe_teleport_location(&maze), Some((25 * 16, 16 * 16)));
}

#[test]
fn teleport_uses_a_charge() {
    let mut maze = Maze::new(64, 64, None);
    maze.data[16 * 64 + 16] = 0;
    let mut hud = HudState::default();
    assert_eq!(handle_player_teleport(&mut hud, &maze), Some((256, 256)));
    assert_eq!(hud.teleport_countdown, 80);
    hud.teleport_countdown = 10;
    assert_eq!(handle_player_teleport(&mut hud, &maze), Some((256, 256)));
    assert_eq!(hud.teleport_countdown, 0);
    assert_eq!(handle_player_teleport(&mut hud, &maze), None);
    assert_eq!(hud.teleport_countdown, 0);
    // no open place: the charge stays
    let walls = Maze::new(64, 64, None);
    hud.teleport_countdown = 50;
    assert_eq!(handle_player_teleport(&mut hud, &walls), None);
    assert_eq!(hud.teleport_countdown, 50);
}

#[test]
fn teleport_charges_regenerate_up_to_100() {
    let mut hud = HudState { coins_left: 3, teleport_countdown: 98, walker_timer: 7, dynamites: 1 };
    regenerate_teleport_charges(&mut hud);
    assert_eq!(hud.teleport_countdown, 99);
    regenerate_teleport_charges(&mut hud);
    regenerate_teleport_charges(&mut hud);
    assert_eq!(hud, HudState { coins_left: 3, teleport_countdown: 100, walker_timer: 7, dynamites: 1 });
}

#[test]
fn setup_builds_a_playable_map() {
    let (maze, x, y) = setup();
    assert_eq!((x, y), (176, 160));
    assert_eq!((maze.width, maze.height, maze.tile_width, maze.tile_height), (64, 64, 16, 16));
    assert_eq!(maze.coin_counter, 100);
    assert_eq!(maze.data[65], 0);
    assert!(maze.coins.iter().all(|c| (c.x, c.y) == (1, 1) || maze.data[((c.y / 16) * 64 + c.x / 16) as usize] == 0));
}

#[test]
fn npcs_advance_with_the_game() {
    let mut maze = open_map();
    maze.npcs[0] = Npc { x: 32, y: 32, vector_x: 1, vector_y: 0, steps_remaining: 2 };
    update_game(&mut maze);
    assert_eq!((maze.npcs[0].x, maze.npcs[0].y), (48, 32));
}

#[test]
fn tile_textures() {
    let mut maze = open_map();
    maze.data[2 * 64 + 4] = 2;
    assert_eq!(tile_texture_at(&maze, 3, 2), TileTexture::Ground);
    assert_eq!(tile_texture_at(&maze, 4, 2), TileTexture::Scorched);
    assert_eq!(tile_texture_at(&maze, 0, 0), TileTexture::Wall);
    assert_eq!(tile_texture_at(&maze, -1, 0), TileTexture::Empty);
    assert_eq!(tile_texture_at(&maze, 64, 3), TileTexture::Empty);
}

#[test]
fn no_seed_by_default() {
    assert!(spooky_maze::systems::MazeSeed::default().0.is_none());
}
