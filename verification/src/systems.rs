//! The per-frame game rules: collision detection and handling, player
//! movement against walls, teleportation and the heads-up counters.
//!
//! Positions here are the integer pixel coordinates of the player; the
//! schedulers around the library convert to and from their own types.
use vstd::prelude::*;

use crate::maze::{
    carved, coin_at, count_at, free_tile_in, lemma_generated_coins_counted, sat_sub, spanning_passages, Coin, Maze, COIN_COUNT,
    DYNAMITE_COUNT, MAZE_CELLS, NPC_COUNT, WALKER_COUNT,
};

verus! {

/// This event is fired when the player collides with a coin.
/// The event carries the coin's pixel coordinates.
#[derive(Debug, Copy, Clone, PartialEq, Eq, Structural)]
pub struct CoinCollisionMessage {
    pub coin_x: i32,
    pub coin_y: i32,
}

/// An event indicating that the player has collided with a dynamite.
/// The coordinates refer to the tile where the collision occurred.
#[derive(Debug, Copy, Clone, PartialEq, Eq, Structural)]
pub struct DynamiteCollisionMessage {
    pub x: i32,
    pub y: i32,
}

/// An event indicating that the player collided with an NPC.
#[derive(Debug, Copy, Clone, PartialEq, Eq, Structural)]
pub struct NpcCollisionEvent {
    pub npc_x: i32,
    pub npc_y: i32,
}

/// A message indicating that the player collided with a walker.
#[derive(Debug, Copy, Clone, PartialEq, Eq, Structural)]
pub struct WalkerCollisionMessage {
    pub walker_x: i32,
    pub walker_y: i32,
}

/// The current HUD values.
#[derive(Debug, Copy, Clone, PartialEq, Eq, Structural)]
pub struct HudState {
    pub coins_left: u32,
    pub teleport_countdown: u32,
    pub walker_timer: u32,
    pub dynamites: u32,
}

impl Default for HudState {
    fn default() -> (r: Self)
        ensures
            r == (HudState { coins_left: 100, teleport_countdown: 100, walker_timer: 0, dynamites: 0 }),
    {
        Self { coins_left: 100, teleport_countdown: 100, walker_timer: 0, dynamites: 0 }
    }
}

/// The seed that the maze of a new game is generated from; none by default.
pub struct MazeSeed(pub Option<[u8; 32]>);

impl Default for MazeSeed {
    fn default() -> (r: Self)
        ensures
            r.0 is None,
    {
        MazeSeed(None)
    }
}

/// How many NPCs stand at (x, y) among the first `k`.
pub open spec fn count_npcs_at(s: Seq<crate::maze::Npc>, x: int, y: int, k: int) -> nat
    decreases k,
{
    if k <= 0 {
        0
    } else {
        count_npcs_at(s, x, y, k - 1) + (if s[k - 1].x == x && s[k - 1].y == y {
            1nat
        } else {
            0nat
        })
    }
}

/// Coordinates of the objects among `items` at (x, y), one entry per object, in order.
fn hits_at(items: &Vec<Coin>, x: i32, y: i32) -> (r: Vec<(i32, i32)>)
    ensures
        r@.len() == count_at(items@, x as int, y as int, items@.len() as int),
        forall|i: int| 0 <= i < r@.len() ==> #[trigger] r@[i] == (x, y),
{
    let mut r: Vec<(i32, i32)> = Vec::new();
    let mut i: usize = 0;
    while i < items.len()
        invariant
            i <= items@.len(),
            r@.len() == count_at(items@, x as int, y as int, i as int),
            forall|j: int| 0 <= j < r@.len() ==> #[trigger] r@[j] == (x, y),
        decreases items.len() - i,
    {
        let c = items[i];
        if c.x == x && c.y == y {
            r.push((c.x, c.y));
        }
        i += 1;
    }
    r
}

/// This system checks the player's current position against all coin positions in the maze.
/// For each coin on the player's position it dispatches a `CoinCollisionMessage`.
pub fn detect_coin_collision(maze: &Maze, player_x: i32, player_y: i32) -> (r: Vec<CoinCollisionMessage>)
    ensures
        r@.len() == count_at(maze.coins@, player_x as int, player_y as int, maze.coins@.len() as int),
        forall|i: int|
            0 <= i < r@.len() ==> #[trigger] r@[i] == (CoinCollisionMessage {
                coin_x: player_x,
                coin_y: player_y,
            }),
{
    let hits = hits_at(&maze.coins, player_x, player_y);
    let mut r: Vec<CoinCollisionMessage> = Vec::new();
    let mut i: usize = 0;
    while i < hits.len()
        invariant
            i <= hits@.len(),
            r@.len() == i,
            forall|j: int| 0 <= j < hits@.len() ==> #[trigger] hits@[j] == (player_x, player_y),
            forall|j: int|
                0 <= j < i ==> #[trigger] r@[j] == (CoinCollisionMessage {
                    coin_x: player_x,
                    coin_y: player_y,
                }),
        decreases hits.len() - i,
    {
        let (x, y) = hits[i];
        r.push(CoinCollisionMessage { coin_x: x, coin_y: y });
        i += 1;
    }
    r
}

/// This system listens for a `CoinCollisionMessage` and removes the collided coin from the maze;
/// the HUD then shows the new coin count.
pub fn remove_coin_on_collision(maze: &mut Maze, hud_state: &mut HudState, event: CoinCollisionMessage)
    requires
        old(maze).wf(),
    ensures
        old(maze).coins_removed(*final(maze), event.coin_x as int, event.coin_y as int),
        *final(hud_state) == (HudState { coins_left: final(maze).coin_counter, ..*old(hud_state) }),
{
    maze.remove_coin(Coin { x: event.coin_x, y: event.coin_y });
    hud_state.coins_left = maze.coin_counter;
}

/// The dynamite pickups at the player's position, one message per pickup.
pub fn detect_dynamite_collision(maze: &Maze, player_x: i32, player_y: i32) -> (r: Vec<DynamiteCollisionMessage>)
    ensures
        r@.len() == count_at(maze.dynamites@, player_x as int, player_y as int, maze.dynamites@.len() as int),
        forall|i: int|
            0 <= i < r@.len() ==> #[trigger] r@[i] == (DynamiteCollisionMessage { x: player_x, y: player_y }),
{
    let hits = hits_at(&maze.dynamites, player_x, player_y);
    let mut r: Vec<DynamiteCollisionMessage> = Vec::new();
    let mut i: usize = 0;
    while i < hits.len()
        invariant
            i <= hits@.len(),
            r@.len() == i,
            forall|j: int| 0 <= j < hits@.len() ==> #[trigger] hits@[j] == (player_x, player_y),
            forall|j: int|
                0 <= j < i ==> #[trigger] r@[j] == (DynamiteCollisionMessage { x: player_x, y: player_y }),
        decreases hits.len() - i,
    {
        let (x, y) = hits[i];
        r.push(DynamiteCollisionMessage { x, y });
        i += 1;
    }
    r
}

/// Handles a `DynamiteCollisionMessage` by relocating the dynamite in the maze
/// (so that the player can pick up another one).
pub fn handle_dynamite_collision(maze: &mut Maze, event: DynamiteCollisionMessage)
    requires
        old(maze).wf(),
    ensures
        old(maze).dynamites_relocated(*final(maze), event.x as int, event.y as int),
{
    maze.relocate_dynamite(Coin { x: event.x, y: event.y });
}

/// The walkers at the player's position, one message per walker.
pub fn detect_walker_collision(maze: &Maze, player_x: i32, player_y: i32) -> (r: Vec<WalkerCollisionMessage>)
    ensures
        r@.len() == count_at(maze.walkers@, player_x as int, player_y as int, maze.walkers@.len() as int),
        forall|i: int|
            0 <= i < r@.len() ==> #[trigger] r@[i] == (WalkerCollisionMessage {
                walker_x: player_x,
                walker_y: player_y,
            }),
{
    let hits = hits_at(&maze.walkers, player_x, player_y);
    let mut r: Vec<WalkerCollisionMessage> = Vec::new();
    let mut i: usize = 0;
    while i < hits.len()
        invariant
            i <= hits@.len(),
            r@.len() == i,
            forall|j: int| 0 <= j < hits@.len() ==> #[trigger] hits@[j] == (player_x, player_y),
            forall|j: int|
                0 <= j < i ==> #[trigger] r@[j] == (WalkerCollisionMessage {
                    walker_x: player_x,
                    walker_y: player_y,
                }),
        decreases hits.len() - i,
    {
        let (x, y) = hits[i];
        r.push(WalkerCollisionMessage { walker_x: x, walker_y: y });
        i += 1;
    }
    r
}

/// Handles a `WalkerCollisionMessage`: one random spot is drawn, and every
/// walker at the collision position moves there. The spot is returned so
/// that the walker's picture can follow.
pub fn handle_walker_collision(maze: &mut Maze, event: WalkerCollisionMessage) -> (r: (i32, i32))
    requires
        old(maze).wf(),
    ensures
        final(maze).wf(),
        final(maze).same_layout(*old(maze)),
        final(maze).coins@ == old(maze).coins@,
        final(maze).coin_counter == old(maze).coin_counter,
        final(maze).npcs@ == old(maze).npcs@,
        final(maze).dynamites@ == old(maze).dynamites@,
        final(maze).spawn_point(r),
        forall|i: int|
            0 <= i < WALKER_COUNT ==> #[trigger] final(maze).walkers@[i] == if coin_at(
                old(maze).walkers@[i],
                event.walker_x as int,
                event.walker_y as int,
            ) {
                Coin { x: r.0, y: r.1 }
            } else {
                old(maze).walkers@[i]
            },
{
    // Get a new random coordinate for the walker.
    let (new_x, new_y) = maze.get_random_coordinates();
    let ghost walkers0 = maze.walkers@;
    let mut index: usize = 0;
    while index < WALKER_COUNT
        invariant
            index <= WALKER_COUNT,
            maze.wf(),
            maze.same_layout(*old(maze)),
            maze.coins@ == old(maze).coins@,
            maze.coin_counter == old(maze).coin_counter,
            maze.npcs@ == old(maze).npcs@,
            maze.dynamites@ == old(maze).dynamites@,
            walkers0 == old(maze).walkers@,
            maze.spawn_point((new_x, new_y)),
            forall|i: int| index <= i < WALKER_COUNT ==> #[trigger] maze.walkers@[i] == walkers0[i],
            forall|i: int|
                0 <= i < index ==> #[trigger] maze.walkers@[i] == if coin_at(
                    walkers0[i],
                    event.walker_x as int,
                    event.walker_y as int,
                ) {
                    Coin { x: new_x, y: new_y }
                } else {
                    walkers0[i]
                },
        decreases WALKER_COUNT - index,
    {
        if maze.walkers[index].x == event.walker_x && maze.walkers[index].y == event.walker_y {
            maze.walkers.set(index, Coin { x: new_x, y: new_y });
        }
        index += 1;
    }
    (new_x, new_y)
}

/// The NPCs at the player's position, one event per NPC.
pub fn detect_npc_collision(maze: &Maze, player_x: i32, player_y: i32) -> (r: Vec<NpcCollisionEvent>)
    ensures
        r@.len() == count_npcs_at(maze.npcs@, player_x as int, player_y as int, maze.npcs@.len() as int),
        forall|i: int| 0 <= i < r@.len() ==> #[trigger] r@[i] == (NpcCollisionEvent { npc_x: player_x, npc_y: player_y }),
{
    let mut r: Vec<NpcCollisionEvent> = Vec::new();
    let mut i: usize = 0;
    while i < maze.npcs.len()
        invariant
            i <= maze.npcs@.len(),
            r@.len() == count_npcs_at(maze.npcs@, player_x as int, player_y as int, i as int),
            forall|j: int|
                0 <= j < r@.len() ==> #[trigger] r@[j] == (NpcCollisionEvent { npc_x: player_x, npc_y: player_y }),
        decreases maze.npcs.len() - i,
    {
        let n = maze.npcs[i];
        if n.x == player_x && n.y == player_y {
            r.push(NpcCollisionEvent { npc_x: n.x, npc_y: n.y });
        }
        i += 1;
    }
    r
}

/// Handles an NPC collision: the player is sent to a new valid position,
/// which is returned. The spot is drawn at random; when the draws find no
/// ground (the fallback (1, 1) came back), the first ground tile is taken,
/// so the result is the top-left pixel of a ground tile whenever the map has
/// one. The NPCs and everything else on the map stay as they were.
pub fn handle_npc_collision(maze: &mut Maze) -> (r: (i32, i32))
    requires
        old(maze).wf(),
    ensures
        final(maze).same_but_rng(*old(maze)),
        final(maze).spawn_point(r),
        final(maze).has_ground() ==> final(maze).ground_spot(r),
{
    let p = maze.get_random_coordinates();
    if p.0 == 1 && p.1 == 1 {
        if let Some(q) = maze.first_free_tile() {
            return q;
        }
    } else {
        proof {
            let (tx, ty) = choose|tx: int, ty: int|
                #[trigger] free_tile_in(
                    maze.data@,
                    maze.width as int,
                    maze.height as int,
                    tx,
                    ty,
                ) && p.0 == tx * maze.tile_width && p.1 == ty * maze.tile_height;
            assert(maze.free_tile(tx, ty));
        }
    }
    p
}

/// Advance the NPCs of the maze one step.
pub fn update_game(maze: &mut Maze)
    requires
        old(maze).wf(),
    ensures
        old(maze).npcs_moved(*final(maze)),
{
    maze.move_npcs();
}

/// Where a movement request of (dx, dy) from (x, y) takes the player, each
/// axis on its own: the x step is taken when (x + dx, y) is not a wall, the
/// y step when (x, y + dy) is not a wall. `None` when neither is taken.
pub open spec fn player_move(maze: Maze, x: int, y: int, dx: int, dy: int) -> Option<(int, int)> {
    let nx = if dx != 0 && !maze.wall_at(x + dx, y) {
        x + dx
    } else {
        x
    };
    let ny = if dy != 0 && !maze.wall_at(x, y + dy) {
        y + dy
    } else {
        y
    };
    if nx == x && ny == y {
        None
    } else {
        Some((nx, ny))
    }
}

/// The two axes of a move are taken independently: when neither the x
/// target (x + dx, y) nor the y target (x, y + dy) is a wall, a diagonal
/// request moves the player along both.
pub proof fn lemma_free_diagonal_taken(maze: Maze, x: int, y: int, dx: int, dy: int)
    requires
        dx != 0,
        dy != 0,
        !maze.wall_at(x + dx, y),
        !maze.wall_at(x, y + dy),
    ensures
        player_move(maze, x, y, dx, dy) == Some((x + dx, y + dy)),
{
}

/// What one axis of a move gives does not depend on the other axis: the
/// step that a request of (dx, dy) takes along x is the step that (dx, 0)
/// takes, and the step along y is the one that (0, dy) takes.
pub proof fn lemma_axes_independent(maze: Maze, x: int, y: int, dx: int, dy: int)
    ensures
        player_move(maze, x, y, dx, 0) matches Some(p) ==> player_move(maze, x, y, dx, dy) matches Some(
            q,
        ) && q.0 == p.0,
        player_move(maze, x, y, 0, dy) matches Some(p) ==> player_move(maze, x, y, dx, dy) matches Some(
            q,
        ) && q.1 == p.1,
        player_move(maze, x, y, dx, 0) is None && player_move(maze, x, y, 0, dy) is None ==> player_move(
            maze,
            x,
            y,
            dx,
            dy,
        ) is None,
{
}

/// A move along one axis can be undone: when the player stands on open
/// ground and a step of (dx, dy) with one part zero takes it somewhere, the
/// opposite step takes it back.
pub proof fn lemma_move_undone(maze: Maze, x: int, y: int, dx: int, dy: int)
    requires
        dx == 0 || dy == 0,
        !maze.wall_at(x, y),
        player_move(maze, x, y, dx, dy) is Some,
    ensures
        player_move(maze, x, y, dx, dy) == Some((x + dx, y + dy)),
        player_move(maze, x + dx, y + dy, -dx, -dy) == Some((x, y)),
{
}

/// Process one player input: move along each axis whose target is free of
/// walls. Returns the new position, or `None` when the player cannot move.
pub fn process_player_input(maze: &Maze, x: i32, y: i32, dx: i32, dy: i32) -> (r: Option<(i32, i32)>)
    requires
        maze.wf(),
        i32::MIN <= x + dx <= i32::MAX,
        i32::MIN <= y + dy <= i32::MAX,
    ensures
        r matches Some(p) ==> player_move(*maze, x as int, y as int, dx as int, dy as int) == Some(
            (p.0 as int, p.1 as int),
        ),
        r is None ==> player_move(*maze, x as int, y as int, dx as int, dy as int) is None,
{
    // Check each axis independently - allow movement in clear directions
    let mut new_x = x;
    let mut new_y = y;
    if dx != 0 {
        let candidate_x = x + dx;
        if !maze.check_wall_collision(candidate_x, y) {
            new_x = candidate_x;
        }
    }
    if dy != 0 {
        let candidate_y = y + dy;
        if !maze.check_wall_collision(x, candidate_y) {
            new_y = candidate_y;
        }
    }
    // Skip if no movement possible
    if new_x == x && new_y == y {
        None
    } else {
        Some((new_x, new_y))
    }
}

/// The i-th place that teleportation tries, as tile coordinates: a 10-wide
/// scan around a third of the way into the maze, clamped to the grid.
pub open spec fn teleport_tile(maze: Maze, k: int) -> (int, int) {
    let w = maze.width as int;
    let h = maze.height as int;
    (clamp(w / 3 + k % 10 - 5, 0, w - 1), clamp(h / 3 + k / 10 - 5, 0, h - 1))
}

/// `v` limited to `lo..=hi`.
pub open spec fn clamp(v: int, lo: int, hi: int) -> int {
    if v < lo {
        lo
    } else if v > hi {
        hi
    } else {
        v
    }
}

/// Whether the k-th place of the scan is fit for teleportation: its tile is
/// not a wall and the tile's top-left pixel does not collide with one.
pub open spec fn teleport_fit(maze: Maze, k: int) -> bool {
    let (tx, ty) = teleport_tile(maze, k);
    &&& maze.data@[ty * maze.width + tx] != 1
    &&& !maze.wall_at(tx * maze.tile_width, ty * maze.tile_height)
}

/// How many places the scan tries.
pub open spec fn teleport_tries(maze: Maze) -> int {
    (maze.width * maze.height) as int / 4
}

/// A teleport never lands in a wall: the place that the scan finds is
/// open to `check_wall_collision`, and its tile is not a wall tile.
pub proof fn lemma_teleport_target_open(maze: Maze, p: (i32, i32))
    requires
        exists|k: int|
            0 <= k < teleport_tries(maze) && #[trigger] teleport_fit(maze, k) && p.0 == teleport_tile(maze, k).0
                * maze.tile_width && p.1 == teleport_tile(maze, k).1 * maze.tile_height,
    ensures
        !maze.wall_at(p.0 as int, p.1 as int),
{
    let k = choose|k: int|
        0 <= k < teleport_tries(maze) && #[trigger] teleport_fit(maze, k) && p.0 == teleport_tile(maze, k).0
            * maze.tile_width && p.1 == teleport_tile(maze, k).1 * maze.tile_height;
    assert(teleport_fit(maze, k));
}

/// Find a safe location in the maze where the player can teleport: the first place of the scan
/// that is fit, in world coordinates, or `None` when no place fits.
pub fn find_safe_teleport_location(maze: &Maze) -> (r: Option<(i32, i32)>)
    requires
        maze.wf(),
    ensures
        r is Some <==> exists|k: int| 0 <= k < teleport_tries(*maze) && #[trigger] teleport_fit(*maze, k),
        r matches Some(p) ==> exists|k: int|
            0 <= k < teleport_tries(*maze) && #[trigger] teleport_fit(*maze, k) && (forall|j: int|
                0 <= j < k ==> !teleport_fit(*maze, j)) && p.0 == teleport_tile(*maze, k).0
                * maze.tile_width && p.1 == teleport_tile(*maze, k).1 * maze.tile_height,
{
    let (maze_left, maze_bottom, _maze_right, _maze_top) = maze.playable_bounds();
    let tile_w = maze.tile_width as i32;
    let tile_h = maze.tile_height as i32;
    proof {
        let w = maze.width as int;
        let h = maze.height as int;
        assert(w <= 4096 && h <= 4096) by (nonlinear_arith)
            requires
                1 <= w,
                1 <= h,
                w * h <= 4096,
        ;
    }
    let width = maze.width as i32;
    let height = maze.height as i32;
    let start_x = (maze.width as usize / 3) as i32;
    let start_y = (maze.height as usize / 3) as i32;
    let tries = (maze.width * maze.height) as i32 / 4;
    let mut offset: i32 = 0;
    while offset < tries
        invariant
            0 <= offset <= tries,
            tries == teleport_tries(*maze),
            maze.wf(),
            width == maze.width,
            height == maze.height,
            width <= 4096,
            height <= 4096,
            tile_w == maze.tile_width,
            tile_h == maze.tile_height,
            maze_left == 0,
            maze_bottom == 0,
            start_x == maze.width / 3,
            start_y == maze.height / 3,
            forall|j: int| 0 <= j < offset ==> !#[trigger] teleport_fit(*maze, j),
        decreases tries - offset,
    {
        let raw_x = start_x + (offset % 10) - 5;
        let raw_y = start_y + (offset / 10) - 5;
        let tile_x = if raw_x < 0 {
            0
        } else if raw_x > width - 1 {
            width - 1
        } else {
            raw_x
        };
        let tile_y = if raw_y < 0 {
            0
        } else if raw_y > height - 1 {
            height - 1
        } else {
            raw_y
        };
        assert((tile_x as int, tile_y as int) == teleport_tile(*maze, offset as int));
        proof {
            let tx = tile_x as int;
            let ty = tile_y as int;
            let w = width as int;
            let h = height as int;
            let tw = tile_w as int;
            let th = tile_h as int;
            assert(0 <= ty * w + tx < w * h) by (nonlinear_arith)
                requires
                    0 <= tx < w,
                    0 <= ty < h,
            ;
            assert(0 <= tx * tw <= 4096 * 4096) by (nonlinear_arith)
                requires
                    0 <= tx < 4096,
                    1 <= tw <= 4096,
            ;
            assert(0 <= ty * th <= 4096 * 4096) by (nonlinear_arith)
                requires
                    0 <= ty < 4096,
                    1 <= th <= 4096,
            ;
        }
        // Check if this tile is passable (not a wall)
        let tile_index = (tile_y * width + tile_x) as usize;
        if tile_index < maze.data.len() && maze.data[tile_index] != 1 {
            // Convert tile coordinates to world coordinates
            let world_x = maze_left + tile_x * tile_w;
            let world_y = maze_bottom + tile_y * tile_h;
            // Additional check: make sure there's no collision at this position
            if !maze.check_wall_collision(world_x, world_y) {
                assert(teleport_fit(*maze, offset as int));
                return Some((world_x, world_y));
            }
        }
        offset += 1;
    }
    None
}

/// Handle one teleport request. Nothing happens while the countdown is 0.
/// Otherwise the first fit place of the scan is returned, and the countdown
/// is lowered by 20 (not below 0); when no place fits, nothing changes.
pub fn handle_player_teleport(hud_state: &mut HudState, maze: &Maze) -> (r: Option<(i32, i32)>)
    requires
        maze.wf(),
    ensures
        old(hud_state).teleport_countdown == 0 ==> r is None && *final(hud_state) == *old(hud_state),
        old(hud_state).teleport_countdown != 0 ==> {
            &&& (r is Some <==> exists|k: int|
                0 <= k < teleport_tries(*maze) && #[trigger] teleport_fit(*maze, k))
            &&& r matches Some(p) ==> exists|k: int|
                0 <= k < teleport_tries(*maze) && #[trigger] teleport_fit(*maze, k) && (forall|j: int|
                    0 <= j < k ==> !teleport_fit(*maze, j)) && p.0 == teleport_tile(*maze, k).0
                    * maze.tile_width && p.1 == teleport_tile(*maze, k).1 * maze.tile_height
            &&& *final(hud_state) == (if r is Some {
                HudState {
                    teleport_countdown: sat_sub(old(hud_state).teleport_countdown as int, 20) as u32,
                    ..*old(hud_state)
                }
            } else {
                *old(hud_state)
            })
        },
{
    // Check if teleportation is available
    if hud_state.teleport_countdown == 0 {
        return None;
    }
    let r = find_safe_teleport_location(maze);
    if r.is_some() {
        // Consume teleport charge
        hud_state.teleport_countdown = hud_state.teleport_countdown.saturating_sub(20);
    }
    r
}

/// Regenerate teleport charges over time: one charge per call up to 100.
pub fn regenerate_teleport_charges(hud_state: &mut HudState)
    ensures
        *final(hud_state) == (HudState {
            teleport_countdown: if old(hud_state).teleport_countdown < 100 {
                (old(hud_state).teleport_countdown + 1) as u32
            } else {
                old(hud_state).teleport_countdown
            },
            ..*old(hud_state)
        }),
{
    if hud_state.teleport_countdown < 100 {
        hud_state.teleport_countdown = if hud_state.teleport_countdown + 1 < 100 {
            hud_state.teleport_countdown + 1
        } else {
            100
        };
    }
}

/// The maze of a new game: a 64 x 64 map seeded by default, a 32 x 32
/// maze carved into it, then coins, walkers, dynamite and NPCs placed.
/// Also returns where the player starts: tile (11, 10) of the playable area.
pub fn setup() -> (r: (Maze, i32, i32))
    ensures
        r.0.wf(),
        r.0.width == 64,
        r.0.height == 64,
        r.0.visible_width == 21,
        r.0.visible_height == 16,
        r.0.offset == 65,
        r.0.tile_width == 16,
        r.0.tile_height == 16,
        r.0.coin_counter == 100,
        r.0.carved_over(Seq::new(MAZE_CELLS as nat, |i: int| 1u8), 32, 32),
        r.0.populated(),
        r.1 == 11 * 16,
        r.2 == 10 * 16,
{
    // Create the maze.
    let mut maze = Maze::new(64, 64, None);
    let ghost base = maze.data@;
    assert(base =~= Seq::new(MAZE_CELLS as nat, |i: int| 1u8));
    maze.generate_maze(32, 32);
    let ghost m1 = maze;
    maze.generate_coins();
    let ghost m2 = maze;
    maze.generate_walkers();
    maze.generate_dynamites();
    maze.generate_npcs();
    proof {
        lemma_generated_coins_counted(m1, m2);
        let edges = choose|edges: Set<((i32, i32), (i32, i32))>|
            #[trigger] spanning_passages(edges, 32, 32) && forall|i: int|
                0 <= i < MAZE_CELLS ==> #[trigger] m1.data@[i] == if carved(
                    edges,
                    32,
                    32,
                    m1.width as int,
                    m1.offset as int,
                    i,
                ) {
                    0u8
                } else {
                    base[i]
                };
        assert(spanning_passages(edges, 32, 32));
        assert forall|i: int| 0 <= i < MAZE_CELLS implies #[trigger] maze.data@[i] == if carved(
            edges,
            32,
            32,
            maze.width as int,
            maze.offset as int,
            i,
        ) {
            0u8
        } else {
            base[i]
        } by {
            assert(m1.data@[i] == maze.data@[i]);
        }
    }
    // Compute playable bounds.
    let (left, bottom, _right, _top) = maze.playable_bounds();
    let initial_x = left + 11 * 16;
    let initial_y = bottom + 10 * 16;
    (maze, initial_x, initial_y)
}

/// The picture of a map tile.
#[derive(Debug, Copy, Clone, PartialEq, Eq, Structural)]
pub enum TileTexture {
    Wall,
    Ground,
    Scorched,
    Empty,
}

/// The texture of a tile value: wall for 1, scorched for 2, ground for any other.
pub fn tile_texture_of(tile: u8) -> (r: TileTexture)
    ensures
        r == if tile == 1 {
            TileTexture::Wall
        } else if tile == 2 {
            TileTexture::Scorched
        } else {
            TileTexture::Ground
        },
{
    match tile {
        1 => TileTexture::Wall,
        2 => TileTexture::Scorched,
        _ => TileTexture::Ground,
    }
}

/// The texture that the background shows at tile (mx, my): outside the
/// grid the empty tile; inside, wall for 1, scorched for 2 and ground otherwise.
pub fn tile_texture_at(maze: &Maze, mx: i32, my: i32) -> (r: TileTexture)
    requires
        maze.wf(),
    ensures
        r == if mx < 0 || my < 0 || mx >= maze.width || my >= maze.height {
            TileTexture::Empty
        } else {
            let v = maze.data@[my * maze.width + mx];
            if v == 1 {
                TileTexture::Wall
            } else if v == 2 {
                TileTexture::Scorched
            } else {
                TileTexture::Ground
            }
        },
{
    if mx >= 0 && my >= 0 && (mx as u32) < maze.width && (my as u32) < maze.height {
        proof {
            let w = maze.width as int;
            let h = maze.height as int;
            assert(0 <= my * w + mx < w * h) by (nonlinear_arith)
                requires
                    0 <= mx < w,
                    0 <= my < h,
            ;
        }
        let index = (my as usize) * (maze.width as usize) + (mx as usize);
        match maze.data[index] {
            1 => TileTexture::Wall,
            0 => TileTexture::Ground,
            2 => TileTexture::Scorched,
            _ => TileTexture::Ground,
        }
    } else {
        TileTexture::Empty
    }
}

} // verus!
