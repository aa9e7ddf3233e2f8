use spooky_maze::controllers::{
    ButtonEvent, DemoMovementController, EmbeddedMovementController, LadderMovementController, MovementController,
    NoMovementController, Universe,
};
use spooky_maze::engine::{Action, Engine, MazeTile, Sprite};
use spooky_maze::maze::Coin;

/// A game on an all-wall map but for the tiles given, row by row.
fn engine_with_floor(tiles: &[(usize, usize)]) -> Engine {
    let mut engine = Engine::new(Some([3u8; 32]));
    for &(tx, ty) in tiles {
        engine.maze.data[ty * 64 + tx] = 0;
    }
    engine
}

#[test]
fn new_engine() {
    let engine = Engine::new(None);
    assert_eq!((engine.ghost_x, engine.ghost_y), (144, 112));
    assert_eq!((engine.step_size_x, engine.step_size_y), (16, 16));
    assert_eq!((engine.camera_x, engine.camera_y), (0, 0));
    assert_eq!(engine.teleport_counter, 100);
    assert_eq!(engine.walker_counter, 0);
    assert_eq!(engine.dynamite_counter, 0);
    assert_eq!(engine.animation_step, 0);
    assert_eq!(engine.maze.offset, 65);
}

#[test]
fn moving_collects_coins_and_stops_at_walls() {
    let mut engine = engine_with_floor(&[(9, 7), (10, 7)]);
    engine.maze.coins[0] = Coin::new(160, 112);
    assert!(engine.is_walkable(160, 112));
    assert!(!engine.is_walkable(176, 112));
    engine.action(Action::Right);
    assert_eq!((engine.camera_x, engine.camera_y), (16, 0));
    assert_eq!(engine.maze.coin_counter, 99);
    assert_eq!(engine.maze.coins[0], Coin::new(-1, -1));
    engine.action(Action::Right);
    assert_eq!((engine.camera_x, engine.camera_y), (16, 0));
    engine.action(Action::Up);
    assert_eq!((engine.camera_x, engine.camera_y), (16, 0));
    engine.action(Action::Left);
    assert_eq!((engine.camera_x, engine.camera_y), (0, 0));
    engine.action(Action::NoAction);
    assert_eq!((engine.camera_x, engine.camera_y), (0, 0));
}

#[test]
fn walkers_let_the_ghost_through_walls() {
    let mut engine = engine_with_floor(&[(9, 7), (10, 7)]);
    engine.maze.walkers[0] = Coin::new(160, 112);
    engine.maze.dynamites[0] = Coin::new(160, 112);
    engine.move_right();
    assert_eq!(engine.walker_counter, 100);
    assert_eq!(engine.dynamite_counter, 1);
    assert!(engine.is_walkable(176, 112));
    engine.move_right();
    assert_eq!(engine.camera_x, 32);
    engine.tick();
    assert_eq!(engine.walker_counter, 99);
}

#[test]
fn teleport_needs_a_full_charge() {
    let mut engine = engine_with_floor(&[(9, 7)]);
    engine.teleport();
    assert_eq!(engine.teleport_counter, 0);
    let (x, y) = (engine.camera_x + engine.ghost_x, engine.camera_y + engine.ghost_y);
    assert!((x, y) == (1, 1) || (x, y) == (144, 112));
    let camera = (engine.camera_x, engine.camera_y);
    engine.action(Action::Teleport);
    assert_eq!((engine.camera_x, engine.camera_y), camera);
    assert_eq!(engine.teleport_counter, 0);
}

#[test]
fn ticks_advance_the_counters() {
    let mut engine = engine_with_floor(&[(9, 7)]);
    engine.teleport_counter = 99;
    engine.tick();
    assert_eq!(engine.animation_step, 1);
    assert_eq!(engine.teleport_counter, 100);
    engine.tick();
    assert_eq!(engine.animation_step, 0);
    assert_eq!(engine.teleport_counter, 100);
}

#[test]
fn tiles_and_sprites_on_screen() {
    let mut engine = engine_with_floor(&[(9, 7)]);
    assert_eq!(engine.tile_at(9, 7), MazeTile::Ground);
    assert_eq!(engine.tile_at(8, 7), MazeTile::Wall);
    assert_eq!(engine.tile_at(-1, 0), MazeTile::Empty);
    assert_eq!(engine.tile_at(64, 0), MazeTile::Empty);
    engine.camera_x = 40;
    engine.camera_y = -20;
    assert_eq!(engine.visible_tiles(), (2, -1, 20, 15));
    assert_eq!(engine.sprite_position(50, 10), Some((10, 30)));
    assert_eq!(engine.sprite_position(-1, 10), None);
    assert_eq!(engine.sprite_position(40 + 21 * 16, 10), None);
}

#[test]
fn initialized_game_is_ready() {
    let mut engine = Engine::new(Some([9u8; 32]));
    engine.initialize();
    assert_eq!(engine.maze.coin_counter, 100);
    assert_eq!(engine.maze.data[65], 0);
    let (x, y) = (engine.camera_x + engine.ghost_x, engine.camera_y + engine.ghost_y);
    assert!((x, y) == (1, 1) || engine.maze.data[((y / 16) * 64 + x / 16) as usize] == 0);
}

#[test]
fn no_movement_controller_stays() {
    let mut c = NoMovementController::new();
    c.tick();
    c.set_active(3);
    assert_eq!(c.get_movement(), Action::NoAction);
}

#[test]
fn demo_controller_walks() {
    let mut c = DemoMovementController::new([4u8; 32]);
    assert_eq!(c.get_movement(), Action::NoAction);
    for _ in 0..50 {
        c.tick();
        assert!(matches!(c.get_movement(), Action::Up | Action::Down | Action::Left | Action::Right));
    }
}

#[test]
fn embedded_controller_leaves_demo_on_first_press() {
    let mut c = EmbeddedMovementController::new(DemoMovementController::new([1u8; 32]));
    assert_eq!(c.active_index, 0);
    c.tick(ButtonEvent::NoEvent);
    assert_eq!(c.active_index, 0);
    assert_eq!(c.get_movement(), c.demo_movement_controller.last_action);
    c.tick(ButtonEvent::LeftPressed);
    assert_eq!(c.active_index, 1);
    assert_eq!(c.get_movement(), Action::Start);
    c.tick(ButtonEvent::LeftPressed);
    assert_eq!(c.get_movement(), Action::Left);
    c.tick(ButtonEvent::TeleportPressed);
    assert_eq!(c.get_movement(), Action::Teleport);
    c.tick(ButtonEvent::DynamitePressed);
    assert_eq!(c.get_movement(), Action::PlaceDynamite);
    c.tick(ButtonEvent::NoEvent);
    assert_eq!(c.get_movement(), Action::NoAction);
    c.set_active(2);
    c.tick(ButtonEvent::UpPressed);
    assert_eq!(c.get_movement(), Action::NoAction);
}

#[test]
fn ladder_bands() {
    let mut c = LadderMovementController::new();
    let cases = [
        (4000u16, Action::NoAction),
        (4001, Action::Right),
        (4999, Action::Right),
        (5000, Action::Left),
        (6000, Action::Down),
        (7000, Action::Up),
        (8179, Action::Up),
        (8180, Action::NoAction),
        (0, Action::NoAction),
    ];
    for (value, action) in cases {
        c.update_last_action(value);
        assert_eq!(c.get_movement(), action, "reading {value}");
    }
}

#[test]
fn universe_runs_frames() {
    let mut engine = Engine::new(Some([2u8; 32]));
    engine.maze.data[7 * 64 + 9] = 0;
    let mut universe = Universe::new_with_movement_controller(engine, NoMovementController::new());
    let frame = universe.render_frame();
    assert_eq!(universe.engine.animation_step, 1);
    // the frame is the drawing of the state after the tick
    assert_eq!(frame.sprites, universe.engine.draw());
    assert_eq!(frame.tiles, universe.engine.draw_maze());
    assert_eq!(frame.tiles.len(), universe.engine.maze.visible_width as usize - 1);
    // the ghost is in its second animation frame, the status icons close the list
    let n = frame.sprites.len();
    assert!(n >= 5);
    assert_eq!(frame.sprites[n - 5], (Sprite::Ghost2, universe.engine.ghost_x, universe.engine.ghost_y));
    assert_eq!(frame.sprites[n - 1], (Sprite::Dynamite, 5, 72));
    universe.set_active(1);
    let _ = universe.get_movement_controller_mut();
    universe.initialize();
    assert_eq!(universe.engine.maze.coin_counter, 100);
}

#[test]
fn a_frame_shows_what_is_on_screen() {
    let mut engine = engine_with_floor(&[(9, 7)]);
    engine.camera_x = 32;
    engine.camera_y = 16;
    engine.maze.coins[0] = Coin::new(48, 32);
    engine.maze.coins[1] = Coin::new(32 + 21 * 16, 32);
    engine.maze.coins[2] = Coin::new(40, 16);
    engine.maze.walkers[3] = Coin::new(100, 100);
    engine.maze.npcs[0].x = 32;
    engine.maze.npcs[0].y = 16;
    let plan = engine.draw();
    assert_eq!(
        plan,
        vec![
            (Sprite::Coin, 16, 16),
            (Sprite::Coin, 8, 0),
            (Sprite::Npc, 0, 0),
            (Sprite::Walker, 68, 84),
            (Sprite::Ghost1, 144, 112),
            (Sprite::Coin, 5, 6),
            (Sprite::Teleport, 5, 28),
            (Sprite::Walker, 5, 50),
            (Sprite::Dynamite, 5, 72),
        ]
    );
    engine.animation_step = 1;
    assert!(engine.draw().contains(&(Sprite::Ghost2, 144, 112)));
}

#[test]
fn the_status_bar_numbers() {
    let mut engine = Engine::new(None);
    engine.walker_counter = 7;
    assert_eq!(engine.status_numbers(), [(100, 24, 17), (100, 24, 39), (7, 24, 61), (0, 24, 83)]);
}

#[test]
fn the_maze_under_the_camera() {
    let mut engine = engine_with_floor(&[(2, 1)]);
    engine.camera_x = 20;
    engine.camera_y = -20;
    let tiles = engine.draw_maze();
    assert_eq!(tiles.len(), 20);
    assert!(tiles.iter().all(|column| column.len() == 15));
    // column 0 is tile column 1, row 0 is tile row -1
    assert_eq!(tiles[0][0], (-4, 4, MazeTile::Empty));
    assert_eq!(tiles[0][1], (-4, 20, MazeTile::Wall));
    assert_eq!(tiles[1][2], (12, 36, MazeTile::Ground));
}

#[test]
fn far_away_objects_are_off_the_screen() {
    let mut engine = Engine::new(Some([3u8; 32]));
    engine.camera_x = -32;
    engine.camera_y = -16;
    assert_eq!(engine.sprite_position(i32::MAX, 0), None);
    assert_eq!(engine.sprite_position(0, i32::MAX), None);
    assert_eq!(engine.sprite_position(0, 0), Some((32, 16)));
    for coin in engine.maze.coins.iter_mut() {
        *coin = Coin::new(i32::MAX, i32::MAX);
    }
    let sprites = engine.draw();
    assert!(!sprites.iter().any(|&(s, x, y)| s == Sprite::Coin && (x, y) != (5, 6)));
}
