//! The frame-based game engine of the embedded builds: a ghost in the
//! middle of the screen, a camera that scrolls over the maze, and the
//! counters of the status bar (teleport charge, walk-through-walls time and
//! dynamite).
//!
//! Drawing is left to the caller: the engine says which tile and which
//! sprite goes where.
use vstd::arithmetic::div_mod::{lemma_fundamental_div_mod, lemma_mod_pos_bound};
use vstd::prelude::*;

use crate::maze::{
    carved, coin_at, count_at, lemma_generated_coins_counted, sat_sub, spanning_passages, tdiv, Coin, Maze, Npc,
    COIN_COUNT, DYNAMITE_COUNT, MAZE_CELLS, NPC_COUNT, WALKER_COUNT,
};

verus! {

/// What the player (or a movement controller on the player's behalf) asks for.
#[derive(Debug, Copy, Clone, PartialEq, Eq, Structural)]
pub enum Action {
    Up,
    Down,
    Left,
    Right,
    Teleport,
    PlaceDynamite,
    Start,
    Stop,
    /// Nothing to do.
    NoAction,
}

/// The magnitude below which camera coordinates stay.
pub const CAMERA_LIMIT: i32 = 33554432;

/// The limit of the ghost's screen position and of step sizes.
pub const SCREEN_LIMIT: i32 = 1048576;

/// The state of a running game.
pub struct Engine {
    pub start_time: u64,
    pub ghost_x: i32,
    pub ghost_y: i32,
    pub step_size_x: u32,
    pub step_size_y: u32,
    pub maze: Maze,
    pub camera_x: i32,
    pub camera_y: i32,
    pub animation_step: u32,
    pub teleport_counter: u32,
    pub walker_counter: u32,
    pub dynamite_counter: u32,
}

/// The pictures that the screen shows over the maze.
#[derive(Debug, Copy, Clone, PartialEq, Eq, Structural)]
pub enum Sprite {
    Coin,
    Npc,
    Walker,
    Dynamite,
    /// The ghost, first animation frame.
    Ghost1,
    /// The ghost, second animation frame.
    Ghost2,
    Teleport,
}

/// The positions of collectibles.
pub open spec fn coin_spots(s: Seq<Coin>) -> Seq<(i32, i32)> {
    s.map_values(|c: Coin| (c.x, c.y))
}

/// The positions of NPCs.
pub open spec fn npc_spots(s: Seq<Npc>) -> Seq<(i32, i32)> {
    s.map_values(|n: Npc| (n.x, n.y))
}

/// What one frame shows: the maze tiles (see [`Engine::draw_maze`]) and the
/// sprites drawn over them (see [`Engine::draw`]).
#[derive(Debug, Clone, PartialEq, Eq)]
pub struct Frame {
    pub tiles: Vec<Vec<(i32, i32, MazeTile)>>,
    pub sprites: Vec<(Sprite, i32, i32)>,
}

/// The tile that the screen shows at a grid position.
#[derive(Debug, Copy, Clone, PartialEq, Eq, Structural)]
pub enum MazeTile {
    Empty,
    Ground,
    Wall,
}

impl Engine {
    /// The invariant of a running game: the map is well formed, the ghost,
    /// the step sizes and the visible area are of screen size, the camera
    /// stays in a range where no sum overflows, and the animation toggles
    /// between 0 and 1.
    pub open spec fn wf(self) -> bool {
        &&& self.maze.wf()
        &&& 0 <= self.ghost_x <= SCREEN_LIMIT
        &&& 0 <= self.ghost_y <= SCREEN_LIMIT
        &&& self.step_size_x <= SCREEN_LIMIT
        &&& self.step_size_y <= SCREEN_LIMIT
        &&& -CAMERA_LIMIT <= self.camera_x <= CAMERA_LIMIT
        &&& -CAMERA_LIMIT <= self.camera_y <= CAMERA_LIMIT
        &&& self.maze.visible_width <= 4096
        &&& self.maze.visible_height <= 4096
        &&& self.animation_step <= 1
    }

    /// The world pixel under the ghost.
    pub open spec fn player(self) -> (int, int) {
        (self.camera_x + self.ghost_x, self.camera_y + self.ghost_y)
    }

    /// Whether the ghost may stand on world pixel (x, y): while the walker
    /// timer runs it only has to stay on the map, otherwise it must avoid walls.
    pub open spec fn walkable(self, x: int, y: int) -> bool {
        if self.walker_counter > 0 {
            !self.maze.outside(x, y)
        } else {
            !self.maze.wall_at(x, y)
        }
    }

    /// The fields that no game action changes.
    pub open spec fn same_setup(self, other: Engine) -> bool {
        &&& self.start_time == other.start_time
        &&& self.ghost_x == other.ghost_x
        &&& self.ghost_y == other.ghost_y
        &&& self.step_size_x == other.step_size_x
        &&& self.step_size_y == other.step_size_y
    }

    /// `next` is this game after picking up what lies under the ghost: the
    /// coins there are removed, walkers there move away and add 100 to the
    /// walker timer (while it is below 10000), dynamite there moves away and
    /// adds one to the dynamite counter (while it is below 10000).
    pub open spec fn collected(self, next: Engine) -> bool {
        let (px, py) = self.player();
        let walker_hit = exists|i: int|
            0 <= i < WALKER_COUNT && coin_at(#[trigger] self.maze.walkers@[i], px, py);
        let dynamite_hit = exists|i: int|
            0 <= i < DYNAMITE_COUNT && coin_at(#[trigger] self.maze.dynamites@[i], px, py);
        &&& next.wf()
        &&& next.same_setup(self)
        &&& next.camera_x == self.camera_x
        &&& next.camera_y == self.camera_y
        &&& next.animation_step == self.animation_step
        &&& next.teleport_counter == self.teleport_counter
        &&& next.maze.same_layout(self.maze)
        &&& next.maze.npcs@ == self.maze.npcs@
        &&& next.maze.coin_counter == sat_sub(
            self.maze.coin_counter as int,
            count_at(self.maze.coins@, px, py, COIN_COUNT as int) as int,
        )
        &&& forall|i: int|
            0 <= i < COIN_COUNT ==> #[trigger] next.maze.coins@[i] == if coin_at(self.maze.coins@[i], px, py) {
                Coin { x: -1i32, y: -1i32 }
            } else {
                self.maze.coins@[i]
            }
        &&& forall|i: int|
            #![trigger next.maze.walkers@[i]]
            0 <= i < WALKER_COUNT ==> if coin_at(self.maze.walkers@[i], px, py) {
                next.maze.spawn_point((next.maze.walkers@[i].x, next.maze.walkers@[i].y))
            } else {
                next.maze.walkers@[i] == self.maze.walkers@[i]
            }
        &&& next.walker_counter == if walker_hit && self.walker_counter < 10000 {
            self.walker_counter + 100
        } else {
            self.walker_counter as int
        }
        &&& forall|i: int|
            #![trigger next.maze.dynamites@[i]]
            0 <= i < DYNAMITE_COUNT ==> if coin_at(self.maze.dynamites@[i], px, py) {
                next.maze.spawn_point((next.maze.dynamites@[i].x, next.maze.dynamites@[i].y))
            } else {
                next.maze.dynamites@[i] == self.maze.dynamites@[i]
            }
        &&& next.dynamite_counter == if dynamite_hit && self.dynamite_counter < 10000 {
            self.dynamite_counter + 1
        } else {
            self.dynamite_counter as int
        }
    }

    /// `next` is this game with the camera moved so that the ghost stands on
    /// a spawn point of the map; nothing else but the generator changes.
    pub open spec fn relocated(self, next: Engine) -> bool {
        &&& next.wf()
        &&& next.same_setup(self)
        &&& next.maze.same_but_rng(self.maze)
        &&& next.animation_step == self.animation_step
        &&& next.teleport_counter == self.teleport_counter
        &&& next.walker_counter == self.walker_counter
        &&& next.dynamite_counter == self.dynamite_counter
        &&& next.maze.spawn_point(((next.camera_x + next.ghost_x) as i32, (next.camera_y + next.ghost_y) as i32))
    }

    /// `next` is this game after the NPC check: when an NPC stands on the
    /// ghost's pixel the ghost is relocated, otherwise nothing changes.
    pub open spec fn npc_checked(self, next: Engine) -> bool {
        let (px, py) = self.player();
        if exists|i: int|
            0 <= i < NPC_COUNT && (#[trigger] self.maze.npcs@[i]).x == px && self.maze.npcs@[i].y == py {
            self.relocated(next)
        } else {
            next == self
        }
    }

    /// `next` is this game after a step of (dx, dy) of the camera: taken,
    /// followed by the pickups, when the ghost's new pixel is walkable;
    /// otherwise nothing changes.
    pub open spec fn moved(self, next: Engine, dx: int, dy: int) -> bool {
        let cx = self.camera_x + dx;
        let cy = self.camera_y + dy;
        if self.walkable(cx + self.ghost_x, cy + self.ghost_y) {
            (Engine { camera_x: cx as i32, camera_y: cy as i32, ..self }).collected(next)
        } else {
            next == self
        }
    }

    /// `next` is this game after a teleport request: when the charge is
    /// full (100) the ghost is relocated and the charge drops to 0;
    /// otherwise nothing changes.
    pub open spec fn teleported(self, next: Engine) -> bool {
        if self.teleport_counter == 100 {
            next.teleport_counter == 0 && self.relocated(Engine { teleport_counter: 100, ..next })
        } else {
            next == self
        }
    }

    /// `next` is this game after `action(a)`.
    pub open spec fn acted(self, a: Action, next: Engine) -> bool {
        match a {
            Action::Up => self.moved(next, 0, -(self.step_size_y as int)),
            Action::Down => self.moved(next, 0, self.step_size_y as int),
            Action::Left => self.moved(next, -(self.step_size_x as int), 0),
            Action::Right => self.moved(next, self.step_size_x as int, 0),
            Action::Teleport => self.teleported(next),
            _ => next == self,
        }
    }

    /// The ghost never walks into a wall: while the walker timer is off, a
    /// move from open ground ends on open ground (the move is refused when
    /// its target is a wall).
    pub proof fn lemma_moves_stay_open(self, a: Action, next: Engine)
        requires
            self.wf(),
            self.acted(a, next),
            a is Up || a is Down || a is Left || a is Right,
            self.walker_counter == 0,
            !self.maze.wall_at(self.player().0, self.player().1),
        ensures
            !next.maze.wall_at(next.player().0, next.player().1),
    {
    }

    /// The counters after one tick: the animation toggles, the teleport
    /// charge grows towards 100 and the walker timer runs down.
    pub open spec fn tick_counters(self) -> Engine {
        Engine {
            animation_step: if self.animation_step + 1 > 1 {
                0
            } else {
                (self.animation_step + 1) as u32
            },
            teleport_counter: if self.teleport_counter < 100 {
                (self.teleport_counter + 1) as u32
            } else {
                self.teleport_counter
            },
            walker_counter: if self.walker_counter > 0 {
                (self.walker_counter - 1) as u32
            } else {
                0
            },
            ..self
        }
    }

    /// `next` is this game after `tick`: the counters advance, the NPCs
    /// move, then the NPC check runs.
    pub open spec fn ticked(self, next: Engine) -> bool {
        exists|m: Maze| #[trigger]
            self.maze.npcs_moved(m) && (Engine { maze: m, ..self.tick_counters() }).npc_checked(next)
    }

    /// An NPC that walks onto the ghost catches it. After a tick, when an
    /// NPC stands on the ghost's old pixel, the ghost has been sent to a
    /// spawn point of the map (the camera moved to put it there); when no
    /// NPC stands there, the ghost has stayed where it was.
    pub proof fn lemma_caught_ghost_relocated(self, next: Engine)
        requires
            self.wf(),
            self.ticked(next),
        ensures
            (exists|i: int|
                0 <= i < NPC_COUNT && (#[trigger] next.maze.npcs@[i]).x == self.player().0
                    && next.maze.npcs@[i].y == self.player().1) ==> next.maze.spawn_point(
                (next.player().0 as i32, next.player().1 as i32),
            ),
            !(exists|i: int|
                0 <= i < NPC_COUNT && (#[trigger] next.maze.npcs@[i]).x == self.player().0
                    && next.maze.npcs@[i].y == self.player().1) ==> next.player() == self.player(),
    {
        let m = choose|m: Maze| #[trigger]
            self.maze.npcs_moved(m) && (Engine { maze: m, ..self.tick_counters() }).npc_checked(next);
        let mid = Engine { maze: m, ..self.tick_counters() };
        assert(mid.player() == self.player());
        if exists|i: int|
            0 <= i < NPC_COUNT && (#[trigger] m.npcs@[i]).x == self.player().0 && m.npcs@[i].y
                == self.player().1 {
            assert(mid.relocated(next));
            assert(next.maze.npcs@ == m.npcs@);
        } else {
            assert(next == mid);
        }
    }

    /// A new game on an all-wall 64 x 64 map; see `Maze::new` for the seed.
    pub fn new(seed: Option<[u8; 32]>) -> (r: Engine)
        ensures
            r.wf(),
            r.start_time == 0,
            r.ghost_x == 9 * 16,
            r.ghost_y == 7 * 16,
            r.step_size_x == 16,
            r.step_size_y == 16,
            r.camera_x == 0,
            r.camera_y == 0,
            r.animation_step == 0,
            r.teleport_counter == 100,
            r.walker_counter == 0,
            r.dynamite_counter == 0,
            r.maze.width == 64,
            r.maze.height == 64,
            r.maze.tile_width == 16,
            r.maze.tile_height == 16,
            r.maze.visible_width == 21,
            r.maze.visible_height == 16,
            r.maze.offset == 65,
            r.maze.coin_counter == 100,
    {
        Engine {
            start_time: 0,
            ghost_x: 9 * 16,
            ghost_y: 7 * 16,
            step_size_x: 16,
            step_size_y: 16,
            maze: Maze::new(64, 64, seed),
            camera_x: 0,
            camera_y: 0,
            animation_step: 0,
            teleport_counter: 100,
            walker_counter: 0,
            dynamite_counter: 0,
        }
    }

    proof fn lemma_spawn_bounds(m: Maze, p: (i32, i32))
        requires
            m.wf(),
            m.spawn_point(p),
        ensures
            0 <= p.0 <= 4096 * 4096,
            0 <= p.1 <= 4096 * 4096,
    {
        if p != (1i32, 1i32) {
            let (tx, ty) = choose|tx: int, ty: int|
                #[trigger] crate::maze::free_tile_in(m.data@, m.width as int, m.height as int, tx, ty)
                    && p.0 == tx * m.tile_width && p.1 == ty * m.tile_height;
            let w = m.width as int;
            let h = m.height as int;
            let tw = m.tile_width as int;
            let th = m.tile_height as int;
            assert(w <= 4096 && h <= 4096) by (nonlinear_arith)
                requires
                    1 <= w,
                    1 <= h,
                    w * h <= 4096,
            ;
            assert(0 <= tx * tw <= 4096 * 4096) by (nonlinear_arith)
                requires
                    0 <= tx < w,
                    w <= 4096,
                    1 <= tw <= 4096,
            ;
            assert(0 <= ty * th <= 4096 * 4096) by (nonlinear_arith)
                requires
                    0 <= ty < h,
                    h <= 4096,
                    1 <= th <= 4096,
            ;
        }
    }

    fn check_object_collisions(&mut self)
        requires
            old(self).wf(),
        ensures
            old(self).collected(*final(self)),
    {
        let x = self.camera_x + self.ghost_x;
        let y = self.camera_y + self.ghost_y;
        let ghost m0 = self.maze;
        // Coin collisions
        match self.maze.get_coin_at(x, y) {
            Some(coin) => {
                self.maze.remove_coin(coin);
            },
            None => {
                proof {
                    Self::lemma_no_hits(m0.coins@, x as int, y as int, COIN_COUNT as int);
                }
            },
        }
        let ghost m1 = self.maze;
        // Walker collisions
        match self.maze.get_walker_at(x, y) {
            Some(walker) => {
                self.maze.relocate_walker(walker);
                if self.walker_counter < 10000 {
                    self.walker_counter += 100;
                }
            },
            None => {},
        }
        let ghost m2 = self.maze;
        // Dynamite collisions
        match self.maze.get_dynamite_at(x, y) {
            Some(dynamite) => {
                self.maze.relocate_dynamite(dynamite);
                if self.dynamite_counter < 10000 {
                    self.dynamite_counter += 1;
                }
            },
            None => {},
        }
        assert(self.maze.walkers@ == m2.walkers@);
        assert(m1.walkers@ == m0.walkers@);
    }

    proof fn lemma_no_hits(s: Seq<Coin>, x: int, y: int, k: int)
        requires
            0 <= k <= s.len(),
            forall|i: int| 0 <= i < s.len() ==> !coin_at(#[trigger] s[i], x, y),
        ensures
            count_at(s, x, y, k) == 0,
        decreases k,
    {
        if k > 0 {
            Self::lemma_no_hits(s, x, y, k - 1);
        }
    }

    fn relocate_avatar(&mut self)
        requires
            old(self).wf(),
        ensures
            old(self).relocated(*final(self)),
    {
        let (new_camera_x, new_camera_y) = self.maze.get_random_coordinates();
        proof {
            Self::lemma_spawn_bounds(self.maze, (new_camera_x, new_camera_y));
        }
        self.camera_x = new_camera_x - self.ghost_x;
        self.camera_y = new_camera_y - self.ghost_y;
    }

    fn check_npc_collision(&mut self)
        requires
            old(self).wf(),
        ensures
            old(self).npc_checked(*final(self)),
    {
        let x = self.camera_x + self.ghost_x;
        let y = self.camera_y + self.ghost_y;
        match self.maze.get_npc_at(x, y) {
            Some(_npc) => {
                self.relocate_avatar();
            },
            None => {},
        }
    }

    /// Whether the ghost may stand on world pixel (x, y).
    pub fn is_walkable(&self, x: i32, y: i32) -> (r: bool)
        requires
            self.wf(),
        ensures
            r == self.walkable(x as int, y as int),
    {
        // Walk through walls
        if self.walker_counter > 0 {
            !self.maze.check_boundary_collision(x, y)
        } else {
            !self.maze.check_wall_collision(x, y)
        }
    }

    /// The camera steps, when the ghost may stand there, and the pickups
    /// under the ghost are collected.
    fn move_by(&mut self, dx: i32, dy: i32)
        requires
            old(self).wf(),
            -SCREEN_LIMIT <= dx <= SCREEN_LIMIT,
            -SCREEN_LIMIT <= dy <= SCREEN_LIMIT,
        ensures
            old(self).moved(*final(self), dx as int, dy as int),
    {
        let new_camera_x = self.camera_x + dx;
        let new_camera_y = self.camera_y + dy;
        if self.is_walkable(new_camera_x + self.ghost_x, new_camera_y + self.ghost_y) {
            proof {
                let m = self.maze;
                let px = new_camera_x + self.ghost_x;
                let py = new_camera_y + self.ghost_y;
                assert(!m.outside(px as int, py as int));
                assert(m.pixel_width() <= 4096 * 4096 && m.pixel_height() <= 4096 * 4096) by {
                    let w = m.width as int;
                    let h = m.height as int;
                    let tw = m.tile_width as int;
                    let th = m.tile_height as int;
                    assert(w <= 4096 && h <= 4096) by (nonlinear_arith)
                        requires
                            1 <= w,
                            1 <= h,
                            w * h <= 4096,
                    ;
                    assert(w * tw <= 4096 * 4096) by (nonlinear_arith)
                        requires
                            1 <= w <= 4096,
                            1 <= tw <= 4096,
                    ;
                    assert(h * th <= 4096 * 4096) by (nonlinear_arith)
                        requires
                            1 <= h <= 4096,
                            1 <= th <= 4096,
                    ;
                }
            }
            self.camera_x = new_camera_x;
            self.camera_y = new_camera_y;
            self.check_object_collisions();
        }
    }

    /// One step to the right; see [`Engine::moved`].
    pub fn move_right(&mut self)
        requires
            old(self).wf(),
        ensures
            old(self).moved(*final(self), old(self).step_size_x as int, 0),
    {
        let step = self.step_size_x as i32;
        self.move_by(step, 0);
    }

    /// One step to the left; see [`Engine::moved`].
    pub fn move_left(&mut self)
        requires
            old(self).wf(),
        ensures
            old(self).moved(*final(self), -(old(self).step_size_x as int), 0),
    {
        let step = self.step_size_x as i32;
        self.move_by(-step, 0);
    }

    /// One step up; see [`Engine::moved`].
    pub fn move_up(&mut self)
        requires
            old(self).wf(),
        ensures
            old(self).moved(*final(self), 0, -(old(self).step_size_y as int)),
    {
        let step = self.step_size_y as i32;
        self.move_by(0, -step);
    }

    /// One step down; see [`Engine::moved`].
    pub fn move_down(&mut self)
        requires
            old(self).wf(),
        ensures
            old(self).moved(*final(self), 0, old(self).step_size_y as int),
    {
        let step = self.step_size_y as i32;
        self.move_by(0, step);
    }

    /// Teleport the ghost to a random spot when the charge is full.
    pub fn teleport(&mut self)
        requires
            old(self).wf(),
        ensures
            old(self).teleported(*final(self)),
    {
        if self.teleport_counter == 100 {
            self.relocate_avatar();
            self.teleport_counter = 0;
        }
    }

    /// Carry out an action: the four moves and the teleport; the other
    /// actions leave the game as it is.
    pub fn action(&mut self, action: Action)
        requires
            old(self).wf(),
        ensures
            old(self).acted(action, *final(self)),
            final(self).wf(),
    {
        match action {
            Action::Up => self.move_up(),
            Action::Down => self.move_down(),
            Action::Left => self.move_left(),
            Action::Right => self.move_right(),
            Action::Teleport => self.teleport(),
            _ => {},
        }
    }

    /// Advance the game by one frame.
    pub fn tick(&mut self)
        requires
            old(self).wf(),
        ensures
            old(self).ticked(*final(self)),
            final(self).wf(),
    {
        self.animation_step += 1;
        if self.animation_step > 1 {
            self.animation_step = 0;
        }
        // Recharge teleport
        if self.teleport_counter < 100 {
            self.teleport_counter += 1;
        }
        // Decrement remaining time when Walker is active
        if self.walker_counter > 0 {
            self.walker_counter -= 1;
        }
        self.maze.move_npcs();
        let ghost m = self.maze;
        self.check_npc_collision();
        assert(old(self).maze.npcs_moved(m));
    }

    /// `next` is this game after `initialize`: a 32 x 32 maze carved into
    /// the map, the ghost moved to a spawn point, every object in play (see
    /// `Maze::populated`), and the rest as it was.
    pub open spec fn initialized(self, next: Engine) -> bool {
        &&& next.wf()
        &&& next.same_setup(self)
        &&& next.maze.width == self.maze.width
        &&& next.maze.height == self.maze.height
        &&& next.maze.visible_width == self.maze.visible_width
        &&& next.maze.visible_height == self.maze.visible_height
        &&& next.maze.offset == self.maze.offset
        &&& next.maze.tile_width == self.maze.tile_width
        &&& next.maze.tile_height == self.maze.tile_height
        &&& next.maze.coin_counter == 100
        &&& next.animation_step == self.animation_step
        &&& next.teleport_counter == self.teleport_counter
        &&& next.walker_counter == self.walker_counter
        &&& next.dynamite_counter == self.dynamite_counter
        &&& next.maze.carved_over(self.maze.data@, 32, 32)
        &&& next.maze.populated()
        &&& next.maze.spawn_point(((next.camera_x + next.ghost_x) as i32, (next.camera_y + next.ghost_y) as i32))
    }

    /// Set up a new game: carve a 32 x 32 maze, place the ghost on a
    /// random spot, then place coins, NPCs, walkers and dynamite.
    pub fn initialize(&mut self)
        requires
            old(self).wf(),
            old(self).maze.width == 64,
            old(self).maze.offset == 65,
        ensures
            old(self).initialized(*final(self)),
    {
        let ghost base = self.maze.data@;
        self.maze.generate_maze(32, 32);
        let ghost m1 = self.maze;
        self.relocate_avatar();
        let ghost m_pre = self.maze;
        self.maze.generate_coins();
        let ghost m2 = self.maze;
        self.maze.generate_npcs();
        self.maze.generate_walkers();
        self.maze.generate_dynamites();
        proof {
            lemma_generated_coins_counted(m_pre, m2);
            let edges = choose|edges: Set<((i32, i32), (i32, i32))>|
                #[trigger] spanning_passages(edges, 32, 32) && forall|i: int|
                    0 <= i < MAZE_CELLS ==> #[trigger] m1.data@[i] == if carved(
                        edges,
                        32,
                        32,
                        m1.width as int,
                        m1.offset as int,
                        i,
                    ) {
                        0u8
                    } else {
                        base[i]
                    };
            assert(spanning_passages(edges, 32, 32));
            assert forall|i: int| 0 <= i < MAZE_CELLS implies #[trigger] self.maze.data@[i] == if carved(
                edges,
                32,
                32,
                self.maze.width as int,
                self.maze.offset as int,
                i,
            ) {
                0u8
            } else {
                base[i]
            } by {
                assert(m1.data@[i] == self.maze.data@[i]);
            }
        }
    }

    /// The tile shown for grid position (x, y): empty outside the maze,
    /// ground for a 0 cell and wall for any other.
    pub fn tile_at(&self, x: i32, y: i32) -> (r: MazeTile)
        requires
            self.wf(),
        ensures
            r == if x < 0 || y < 0 || x > self.maze.width - 1 || y > self.maze.height - 1 {
                MazeTile::Empty
            } else if self.maze.data@[x + y * self.maze.width] == 0 {
                MazeTile::Ground
            } else {
                MazeTile::Wall
            },
    {
        proof {
            let w = self.maze.width as int;
            let h = self.maze.height as int;
            assert(w <= 4096 && h <= 4096) by (nonlinear_arith)
                requires
                    1 <= w,
                    1 <= h,
                    w * h <= 4096,
            ;
        }
        if x < 0 || y < 0 || x > (self.maze.width - 1) as i32 || y > (self.maze.height - 1) as i32 {
            MazeTile::Empty
        } else {
            proof {
                let w = self.maze.width as int;
                let h = self.maze.height as int;
                assert(0 <= x + y * w < w * h) by (nonlinear_arith)
                    requires
                        0 <= x < w,
                        0 <= y < h,
                ;
            }
            if self.maze.data[(x + y * (self.maze.width as i32)) as usize] == 0 {
                MazeTile::Ground
            } else {
                MazeTile::Wall
            }
        }
    }

    /// The tile shown at grid position (x, y): empty outside the maze,
    /// ground for a 0 cell and wall for any other.
    pub open spec fn tile_kind(self, x: int, y: int) -> MazeTile {
        if x < 0 || y < 0 || x > self.maze.width - 1 || y > self.maze.height - 1 {
            MazeTile::Empty
        } else if self.maze.data@[x + y * self.maze.width] == 0 {
            MazeTile::Ground
        } else {
            MazeTile::Wall
        }
    }

    /// The tile of grid position (x, y) with the screen position of its
    /// top-left corner.
    pub open spec fn tile_entry(self, x: int, y: int) -> (i32, i32, MazeTile) {
        (
            (x * self.maze.tile_width - self.camera_x) as i32,
            (y * self.maze.tile_height - self.camera_y) as i32,
            self.tile_kind(x, y),
        )
    }

    /// A camera coordinate divided by the tile size (rounding towards zero)
    /// and multiplied back lies less than one tile from where it started.
    proof fn lemma_tile_of_camera(a: int, b: int)
        requires
            1 <= b,
        ensures
            a - b < tdiv(a, b) * b < a + b,
    {
        if a >= 0 {
            lemma_fundamental_div_mod(a, b);
            lemma_mod_pos_bound(a, b);
            let t = tdiv(a, b);
            assert(t == a / b);
            assert(t * b == b * (a / b)) by (nonlinear_arith)
                requires
                    t == a / b,
            ;
        } else {
            lemma_fundamental_div_mod(-a, b);
            lemma_mod_pos_bound(-a, b);
            let t = tdiv(a, b);
            assert(t == -((-a) / b));
            assert(t * b == -(b * ((-a) / b))) by (nonlinear_arith)
                requires
                    t == -((-a) / b),
            ;
        }
    }

    /// Whether `r` holds the maze tiles of a frame, column by column:
    /// `visible_width - 1` columns from the camera's first tile column, each
    /// with the tiles of `visible_height - 1` rows from the camera's first
    /// tile row.
    pub open spec fn shows_tiles(self, r: Vec<Vec<(i32, i32, MazeTile)>>) -> bool {
        let cx = tdiv(self.camera_x as int, self.maze.tile_width as int);
        let cy = tdiv(self.camera_y as int, self.maze.tile_height as int);
        let cols = if self.maze.visible_width >= 1 {
            self.maze.visible_width - 1
        } else {
            0
        };
        let rows = if self.maze.visible_height >= 1 {
            self.maze.visible_height - 1
        } else {
            0
        };
        &&& r@.len() == cols
        &&& forall|i: int|
            0 <= i < cols ==> (#[trigger] r@[i])@.len() == rows && forall|j: int|
                0 <= j < rows ==> #[trigger] r@[i]@[j] == self.tile_entry(cx + i, cy + j)
    }

    /// The maze tiles of a frame, column by column: `visible_width - 1`
    /// columns from the camera's first tile column, each with the tiles of
    /// `visible_height - 1` rows from the camera's first tile row. Drawing
    /// them is left to the caller.
    pub fn draw_maze(&self) -> (r: Vec<Vec<(i32, i32, MazeTile)>>)
        requires
            self.wf(),
        ensures
            self.shows_tiles(r),
    {
        let tw = self.maze.tile_width as i32;
        let th = self.maze.tile_height as i32;
        let (cx, cy, last_col, last_row) = self.visible_tiles();
        let cols: i32 = if last_col >= 0 { last_col } else { 0 };
        let rows: i32 = if last_row >= 0 { last_row } else { 0 };
        proof {
            Self::lemma_tile_of_camera(self.camera_x as int, tw as int);
            Self::lemma_tile_of_camera(self.camera_y as int, th as int);
        }
        let mut r: Vec<Vec<(i32, i32, MazeTile)>> = Vec::new();
        let mut i: i32 = 0;
        while i < cols
            invariant
                0 <= i <= cols,
                self.wf(),
                tw == self.maze.tile_width,
                th == self.maze.tile_height,
                cx == tdiv(self.camera_x as int, tw as int),
                cy == tdiv(self.camera_y as int, th as int),
                self.camera_x - tw < cx * tw < self.camera_x + tw,
                self.camera_y - th < cy * th < self.camera_y + th,
                cols == (if self.maze.visible_width >= 1 { self.maze.visible_width - 1 } else { 0 }),
                rows == (if self.maze.visible_height >= 1 { self.maze.visible_height - 1 } else { 0 }),
                r@.len() == i,
                forall|a: int|
                    0 <= a < i ==> (#[trigger] r@[a])@.len() == rows && forall|b: int|
                        0 <= b < rows ==> #[trigger] r@[a]@[b] == self.tile_entry(cx + a, cy + b),
            decreases cols - i,
        {
            let x = cx + i;
            proof {
                let (ti, ci, twi) = (i as int, cx as int, tw as int);
                assert((ci + ti) * twi == ci * twi + ti * twi) by (nonlinear_arith);
                assert(0 <= ti * twi <= 4096 * 4096) by (nonlinear_arith)
                    requires
                        0 <= ti <= 4096,
                        1 <= twi <= 4096,
                ;
            }
            let px = x * tw - self.camera_x;
            let mut column: Vec<(i32, i32, MazeTile)> = Vec::new();
            let mut j: i32 = 0;
            while j < rows
                invariant
                    0 <= j <= rows,
                    0 <= i < cols,
                    self.wf(),
                    x == cx + i,
                    tw == self.maze.tile_width,
                    th == self.maze.tile_height,
                    cy == tdiv(self.camera_y as int, th as int),
                    self.camera_y - th < cy * th < self.camera_y + th,
                    rows == (if self.maze.visible_height >= 1 { self.maze.visible_height - 1 } else { 0 }),
                    px == x * tw - self.camera_x,
                    column@.len() == j,
                    forall|b: int| 0 <= b < j ==> #[trigger] column@[b] == self.tile_entry(x as int, cy + b),
                decreases rows - j,
            {
                let y = cy + j;
                proof {
                    let (tj, cj, thj) = (j as int, cy as int, th as int);
                    assert((cj + tj) * thj == cj * thj + tj * thj) by (nonlinear_arith);
                    assert(0 <= tj * thj <= 4096 * 4096) by (nonlinear_arith)
                        requires
                            0 <= tj <= 4096,
                            1 <= thj <= 4096,
                    ;
                }
                let py = y * th - self.camera_y;
                let tile = self.tile_at(x, y);
                column.push((px, py, tile));
                j += 1;
            }
            r.push(column);
            i += 1;
        }
        r
    }

    /// The first tile column and row that the screen shows (camera pixels
    /// divided by the tile size, rounding towards zero), and how many columns
    /// and rows are drawn (one less than the visible width and height).
    pub fn visible_tiles(&self) -> (r: (i32, i32, i32, i32))
        requires
            self.wf(),
        ensures
            r.0 == tdiv(self.camera_x as int, self.maze.tile_width as int),
            r.1 == tdiv(self.camera_y as int, self.maze.tile_height as int),
            r.2 == self.maze.visible_width - 1,
            r.3 == self.maze.visible_height - 1,
    {
        let camera_tile_x = self.camera_x / self.maze.tile_width as i32;
        let camera_tile_y = self.camera_y / self.maze.tile_height as i32;
        (camera_tile_x, camera_tile_y, self.maze.visible_width as i32 - 1, self.maze.visible_height as i32 - 1)
    }

    /// Where a sprite at world pixel (x, y) goes on the screen: `None` when it
    /// has been removed (negative coordinates) or lies off the visible area.
    pub open spec fn screen_spot(self, x: int, y: int) -> Option<(i32, i32)> {
        if x < 0 || y < 0 {
            None::<(i32, i32)>
        } else {
            let dx = x - self.camera_x;
            let dy = y - self.camera_y;
            if 0 <= dx < self.maze.visible_width * 16 && 0 <= dy < self.maze.visible_height * 16 {
                Some((dx as i32, dy as i32))
            } else {
                None::<(i32, i32)>
            }
        }
    }

    /// The sprite of one object at `spot`, when it is on the screen.
    pub open spec fn placed_one(self, kind: Sprite, spot: (i32, i32)) -> Seq<(Sprite, i32, i32)> {
        match self.screen_spot(spot.0 as int, spot.1 as int) {
            Some(p) => seq![(kind, p.0, p.1)],
            None => Seq::empty(),
        }
    }

    /// The sprites of the objects at `spots`, in order; those off the screen
    /// are left out.
    pub open spec fn placed(self, kind: Sprite, spots: Seq<(i32, i32)>) -> Seq<(Sprite, i32, i32)>
        decreases spots.len(),
    {
        if spots.len() == 0 {
            Seq::empty()
        } else {
            self.placed(kind, spots.drop_last()) + self.placed_one(kind, spots.last())
        }
    }

    /// What a frame shows over the maze, in drawing order: the coins, NPCs,
    /// walkers and dynamite on the screen, the ghost in its animation frame,
    /// and the four icons of the status bar.
    pub open spec fn sprite_plan(self) -> Seq<(Sprite, i32, i32)> {
        self.placed(Sprite::Coin, coin_spots(self.maze.coins@)) + self.placed(
            Sprite::Npc,
            npc_spots(self.maze.npcs@),
        ) + self.placed(Sprite::Walker, coin_spots(self.maze.walkers@)) + self.placed(
            Sprite::Dynamite,
            coin_spots(self.maze.dynamites@),
        ) + seq![
            (if self.animation_step == 0 {
                Sprite::Ghost1
            } else {
                Sprite::Ghost2
            }, self.ghost_x, self.ghost_y),
            (Sprite::Coin, 5i32, 6i32),
            (Sprite::Teleport, 5i32, 28i32),
            (Sprite::Walker, 5i32, 50i32),
            (Sprite::Dynamite, 5i32, 72i32),
        ]
    }

    /// Append the sprites of `items` (on the screen) to `out`.
    fn place_objects(&self, kind: Sprite, items: &Vec<Coin>, out: &mut Vec<(Sprite, i32, i32)>)
        requires
            self.wf(),
        ensures
            final(out)@ == old(out)@ + self.placed(kind, coin_spots(items@)),
    {
        let ghost spots = coin_spots(items@);
        let mut k: usize = 0;
        assert(spots.take(0) =~= Seq::<(i32, i32)>::empty());
        assert(old(out)@ + self.placed(kind, spots.take(0)) =~= old(out)@);
        while k < items.len()
            invariant
                k <= items@.len(),
                self.wf(),
                spots == coin_spots(items@),
                out@ == old(out)@ + self.placed(kind, spots.take(k as int)),
            decreases items@.len() - k,
        {
            let item = items[k];
            let ghost before = out@;
            match self.sprite_position(item.x, item.y) {
                Some((x, y)) => out.push((kind, x, y)),
                None => {},
            }
            proof {
                assert(spots.take(k + 1).drop_last() =~= spots.take(k as int));
                assert(spots.take(k + 1).last() == (item.x, item.y));
                assert(out@ =~= before + self.placed_one(kind, (item.x, item.y)));
            }
            k += 1;
        }
        assert(spots.take(items@.len() as int) =~= spots);
    }

    /// The sprites of a frame; see [`Engine::sprite_plan`]. Drawing them is
    /// left to the caller.
    pub fn draw(&self) -> (r: Vec<(Sprite, i32, i32)>)
        requires
            self.wf(),
        ensures
            r@ == self.sprite_plan(),
    {
        let mut out: Vec<(Sprite, i32, i32)> = Vec::new();
        self.place_objects(Sprite::Coin, &self.maze.coins, &mut out);
        let ghost after_coins = out@;
        let ghost spots = npc_spots(self.maze.npcs@);
        let mut k: usize = 0;
        assert(spots.take(0) =~= Seq::<(i32, i32)>::empty());
        assert(after_coins + self.placed(Sprite::Npc, spots.take(0)) =~= after_coins);
        while k < self.maze.npcs.len()
            invariant
                k <= self.maze.npcs@.len(),
                self.wf(),
                spots == npc_spots(self.maze.npcs@),
                out@ == after_coins + self.placed(Sprite::Npc, spots.take(k as int)),
            decreases self.maze.npcs@.len() - k,
        {
            let npc = self.maze.npcs[k];
            let ghost before = out@;
            match self.sprite_position(npc.x, npc.y) {
                Some((x, y)) => out.push((Sprite::Npc, x, y)),
                None => {},
            }
            proof {
                assert(spots.take(k + 1).drop_last() =~= spots.take(k as int));
                assert(spots.take(k + 1).last() == (npc.x, npc.y));
                assert(out@ =~= before + self.placed_one(Sprite::Npc, (npc.x, npc.y)));
            }
            k += 1;
        }
        assert(spots.take(self.maze.npcs@.len() as int) =~= spots);
        self.place_objects(Sprite::Walker, &self.maze.walkers, &mut out);
        self.place_objects(Sprite::Dynamite, &self.maze.dynamites, &mut out);
        let ghost_sprite = if self.animation_step == 0 {
            Sprite::Ghost1
        } else {
            Sprite::Ghost2
        };
        out.push((ghost_sprite, self.ghost_x, self.ghost_y));
        out.push((Sprite::Coin, 5, 6));
        out.push((Sprite::Teleport, 5, 28));
        out.push((Sprite::Walker, 5, 50));
        out.push((Sprite::Dynamite, 5, 72));
        assert(out@ =~= self.sprite_plan());
        out
    }

    /// The numbers of the status bar with where each is written: the coins
    /// left, the teleport charge, the walker time and the dynamite count.
    pub fn status_numbers(&self) -> (r: [(u32, i32, i32); 4])
        ensures
            r@ == seq![
                (self.maze.coin_counter, 24i32, 17i32),
                (self.teleport_counter, 24i32, 39i32),
                (self.walker_counter, 24i32, 61i32),
                (self.dynamite_counter, 24i32, 83i32),
            ],
    {
        let r = [
            (self.maze.coin_counter, 24, 17),
            (self.teleport_counter, 24, 39),
            (self.walker_counter, 24, 61),
            (self.dynamite_counter, 24, 83),
        ];
        assert(r@ =~= seq![
            (self.maze.coin_counter, 24i32, 17i32),
            (self.teleport_counter, 24i32, 39i32),
            (self.walker_counter, 24i32, 61i32),
            (self.dynamite_counter, 24i32, 83i32),
        ]);
        r
    }

    /// Where a sprite at world pixel (x, y) goes on the screen, or `None`
    /// when it has been removed (negative coordinates) or lies off the
    /// visible area (`visible_width` x `visible_height` tiles of 16 pixels).
    pub fn sprite_position(&self, x: i32, y: i32) -> (r: Option<(i32, i32)>)
        requires
            self.wf(),
        ensures
            r == if x < 0 || y < 0 {
                None::<(i32, i32)>
            } else {
                let dx = x - self.camera_x;
                let dy = y - self.camera_y;
                if 0 <= dx < self.maze.visible_width * 16 && 0 <= dy < self.maze.visible_height * 16 {
                    Some((dx as i32, dy as i32))
                } else {
                    None::<(i32, i32)>
                }
            },
    {
        if x < 0 || y < 0 {
            return None;
        }
        // The difference is taken in 64 bits: a far-away object cannot
        // overflow it, and lands off the screen.
        let draw_x = x as i64 - self.camera_x as i64;
        let draw_y = y as i64 - self.camera_y as i64;
        let limit_x = (self.maze.visible_width * 16) as i64;
        let limit_y = (self.maze.visible_height * 16) as i64;
        if draw_x >= 0 && draw_y >= 0 && draw_x < limit_x && draw_y < limit_y {
            Some((draw_x as i32, draw_y as i32))
        } else {
            None
        }
    }
}

} // verus!
