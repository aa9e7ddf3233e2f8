//! The tile map of the game and everything placed on it: coins, walkers,
//! dynamite and wandering NPCs.
//!
//! The map holds 64 x 64 tile cells, row by row with row 0 at the top; a
//! cell is 0 for ground, 1 for wall and 2 for scorched ground. Positions of
//! objects are pixel coordinates; a removed object sits at (-1, -1).
use rand_chacha::ChaCha20Rng;
use vstd::prelude::*;

use crate::recursive_backtracking::{
    adjacent, connected, in_grid, step, Coordinates, Direction, Generator, Maze as RbMaze,
    RbGenerator,
};
use crate::rng::{rng_from_seed, rng_range_i32, rng_seed_bytes};

verus! {

/// The number of tile cells that a maze holds.
pub const MAZE_CELLS: usize = 4096;

/// The number of coins on the map.
pub const COIN_COUNT: usize = 100;

/// The number of NPCs on the map.
pub const NPC_COUNT: usize = 5;

/// The number of walkers on the map.
pub const WALKER_COUNT: usize = 5;

/// The number of dynamite pickups on the map.
pub const DYNAMITE_COUNT: usize = 1;

/// Largest magnitude of a pixel coordinate that an NPC can hold.
pub const PIXEL_LIMIT: i32 = 16777216;

/// A collectible (coin, walker or dynamite) at pixel coordinates.
#[derive(Copy, Clone, Debug, PartialEq, Eq, Structural)]
pub struct Coin {
    pub x: i32,
    pub y: i32,
}

/// A wandering non-player character.
#[derive(Copy, Clone, Debug, PartialEq, Eq, Structural)]
pub struct Npc {
    pub x: i32,
    pub y: i32,
    pub vector_x: i32,
    pub vector_y: i32,
    pub steps_remaining: i32,
}

/// The game map with its objects and its random number generator.
pub struct Maze {
    pub width: u32,
    pub height: u32,
    pub visible_width: u32,
    pub visible_height: u32,
    pub data: Vec<u8>,
    pub coins: Vec<Coin>,
    pub coin_counter: u32,
    pub npcs: Vec<Npc>,
    pub walkers: Vec<Coin>,
    pub dynamites: Vec<Coin>,
    pub offset: u32,
    pub tile_width: u32,
    pub tile_height: u32,
    pub rng: ChaCha20Rng,
}

/// Whether an object sits at (x, y).
pub open spec fn coin_at(c: Coin, x: int, y: int) -> bool {
    c.x == x && c.y == y
}

/// Whether an object has been removed from the map.
pub open spec fn removed(c: Coin) -> bool {
    c.x == -1 && c.y == -1
}

/// How many of the first `k` objects sit at (x, y).
pub open spec fn count_at(s: Seq<Coin>, x: int, y: int, k: int) -> nat
    decreases k,
{
    if k <= 0 {
        0
    } else {
        count_at(s, x, y, k - 1) + (if coin_at(s[k - 1], x, y) {
            1nat
        } else {
            0nat
        })
    }
}

/// How many of the first `k` objects have been removed.
pub open spec fn count_removed(s: Seq<Coin>, k: int) -> nat
    decreases k,
{
    if k <= 0 {
        0
    } else {
        count_removed(s, k - 1) + (if removed(s[k - 1]) {
            1nat
        } else {
            0nat
        })
    }
}

/// Whether `relocate_coins(amount)` moves the coin at index `i`: it is
/// removed and fewer than `amount` removed coins come before it (an
/// `amount` of zero moves every removed coin).
pub open spec fn relocates(s: Seq<Coin>, amount: int, i: int) -> bool {
    removed(s[i]) && (amount == 0 || count_removed(s, i) < amount)
}

/// How many coins `relocate_coins(amount)` moves.
pub open spec fn relocated_total(s: Seq<Coin>, amount: int) -> nat {
    let n = count_removed(s, s.len() as int);
    if amount == 0 || n <= amount {
        n
    } else {
        amount as nat
    }
}

/// `a - b`, but at least 0.
pub open spec fn sat_sub(a: int, b: int) -> int {
    if a >= b {
        a - b
    } else {
        0
    }
}

/// Rust's `/` on integers: the quotient rounded towards zero (`b > 0`).
pub open spec fn tdiv(a: int, b: int) -> int {
    if a >= 0 {
        a / b
    } else {
        -((-a) / b)
    }
}

/// A unit vector along one of the four axes.
pub open spec fn axis_vector(vx: i32, vy: i32) -> bool {
    ||| vx == 1 && vy == 0
    ||| vx == -1 && vy == 0
    ||| vx == 0 && vy == 1
    ||| vx == 0 && vy == -1
}

/// A vector of the kind `get_random_vector` produces: each part in
/// {-1, 0, 1}, never both zero.
pub open spec fn wander_vector(vx: i32, vy: i32) -> bool {
    -1 <= vx <= 1 && -1 <= vy <= 1 && !(vx == 0 && vy == 0)
}

/// Whether a pixel coordinate lies in the range that the map can hold.
pub open spec fn pixel_ok(v: int) -> bool {
    -PIXEL_LIMIT <= v <= PIXEL_LIMIT
}

/// Whether an NPC is in the shape that the map keeps its NPCs in.
pub open spec fn npc_ok(n: Npc) -> bool {
    pixel_ok(n.x as int) && pixel_ok(n.y as int) && -1 <= n.vector_x <= 1 && -1 <= n.vector_y <= 1
}

/// Whether tile (tx, ty) of `data`, `w` cells wide, is ground.
pub open spec fn free_tile_in(data: Seq<u8>, w: int, h: int, tx: int, ty: int) -> bool {
    0 <= tx < w && 0 <= ty < h && data[ty * w + tx] == 0
}

/// Every tile of the `w` x `h` grid of `data` is ground.
pub open spec fn all_ground_in(data: Seq<u8>, w: int, h: int) -> bool {
    forall|tx: int, ty: int| 0 <= tx < w && 0 <= ty < h ==> #[trigger] free_tile_in(data, w, h, tx, ty)
}

/// The top-left pixel of a ground tile of `data` (tiles `tw` x `th`
/// pixels), or the fallback (1, 1), which only a map with some wall tile
/// can give.
pub open spec fn spawn_in(data: Seq<u8>, w: int, h: int, tw: int, th: int, p: (i32, i32)) -> bool {
    ||| p == (1i32, 1i32) && !all_ground_in(data, w, h)
    ||| exists|tx: int, ty: int|
        #[trigger] free_tile_in(data, w, h, tx, ty) && p.0 == tx * tw && p.1 == ty * th
}

/// Tile index of cell (x, y) of the maze graph in the tile map:
/// passages become the tiles between the cells.
pub open spec fn carve_index(x: int, y: int, width: int, offset: int) -> int {
    (x - 1) * 2 + (y - 1) * 2 * width + offset
}

/// Whether `generate_maze` clears tile `i`: the tile of a cell (x, y) with
/// 1 <= x < gw and 1 <= y < gh, the tile east of it when the cell has a
/// passage to the west, and the tile below it when it has one to the south.
pub open spec fn carved(
    edges: Set<((i32, i32), (i32, i32))>,
    gw: int,
    gh: int,
    width: int,
    offset: int,
    i: int,
) -> bool {
    exists|x: int, y: int|
        #![trigger carve_index(x, y, width, offset)]
        1 <= x < gw && 1 <= y < gh && {
            let t = carve_index(x, y, width, offset);
            let c = (x as i32, y as i32);
            ||| i == t
            ||| i == t + 1 && edges.contains((c, step(c, Direction::West)))
            ||| i == t + width && edges.contains((c, step(c, Direction::South)))
        }
}

/// Same as `carved`, restricted to the cells that come before (x, y) in row order.
pub open spec fn carved_before(
    edges: Set<((i32, i32), (i32, i32))>,
    gw: int,
    y0: int,
    x0: int,
    width: int,
    offset: int,
    i: int,
) -> bool {
    exists|x: int, y: int|
        #![trigger carve_index(x, y, width, offset)]
        1 <= x < gw && 1 <= y && (y < y0 || (y == y0 && x < x0)) && {
            let t = carve_index(x, y, width, offset);
            let c = (x as i32, y as i32);
            ||| i == t
            ||| i == t + 1 && edges.contains((c, step(c, Direction::West)))
            ||| i == t + width && edges.contains((c, step(c, Direction::South)))
        }
}

/// The passages of a `gw` x `gh` maze as generation leaves them: between
/// neighbouring cells, both ways, every cell reachable from (0, 0).
pub open spec fn spanning_passages(edges: Set<((i32, i32), (i32, i32))>, gw: int, gh: int) -> bool {
    &&& forall|a: (i32, i32), b: (i32, i32)| #[trigger] edges.contains((a, b)) ==> {
        &&& in_grid(gw, gh, a)
        &&& in_grid(gw, gh, b)
        &&& adjacent(a, b)
        &&& edges.contains((b, a))
    }
    &&& forall|c: (i32, i32)| #[trigger] in_grid(gw, gh, c) ==> connected(edges, (0i32, 0i32), c)
}

/// No object of the first `k` sits at (x, y), so none is counted there.
proof fn lemma_count_at_none(s: Seq<Coin>, x: int, y: int, k: int)
    requires
        k <= s.len(),
        forall|i: int| 0 <= i < k ==> !coin_at(#[trigger] s[i], x, y),
    ensures
        count_at(s, x, y, k) == 0,
    decreases k,
{
    if k > 0 {
        lemma_count_at_none(s, x, y, k - 1);
    }
}

/// A collected coin is gone for good: once `remove_coin` has run for a
/// position other than the parking spot (-1, -1), no coin is left there (so
/// `get_coin_at` finds none), and running it again for that position
/// changes neither the coins nor the counter.
pub proof fn lemma_coin_removal_final(a: Maze, b: Maze, c: Maze, x: int, y: int)
    requires
        a.coins_removed(b, x, y),
        b.coins_removed(c, x, y),
        !(x == -1 && y == -1),
    ensures
        forall|i: int| 0 <= i < b.coins@.len() ==> !coin_at(#[trigger] b.coins@[i], x, y),
        c.coins@ == b.coins@,
        c.coin_counter == b.coin_counter,
{
    assert forall|i: int| 0 <= i < b.coins@.len() implies !coin_at(#[trigger] b.coins@[i], x, y) by {
        assert(b.coins@[i] == if coin_at(a.coins@[i], x, y) {
            Coin { x: -1i32, y: -1i32 }
        } else {
            a.coins@[i]
        });
    }
    lemma_count_at_none(b.coins@, x, y, COIN_COUNT as int);
    assert(c.coins@ =~= b.coins@) by {
        assert forall|i: int| 0 <= i < COIN_COUNT implies #[trigger] c.coins@[i] == b.coins@[i] by {
            assert(!coin_at(b.coins@[i], x, y));
        }
    }
}

/// No object of the first `k` is removed, so none is counted as removed.
proof fn lemma_count_removed_none(s: Seq<Coin>, k: int)
    requires
        k <= s.len(),
        forall|i: int| 0 <= i < k ==> !removed(#[trigger] s[i]),
    ensures
        count_removed(s, k) == 0,
    decreases k,
{
    if k > 0 {
        lemma_count_removed_none(s, k - 1);
    }
}

/// Objects at a position other than the parking spot are not removed, so
/// together with the removed ones they number at most `k`.
proof fn lemma_count_at_and_removed(s: Seq<Coin>, x: int, y: int, k: int)
    requires
        0 <= k <= s.len(),
        !(x == -1 && y == -1),
    ensures
        count_at(s, x, y, k) + count_removed(s, k) <= k,
    decreases k,
{
    if k > 0 {
        lemma_count_at_and_removed(s, x, y, k - 1);
    }
}

/// Removing the objects at (x, y) adds them to the removed ones.
proof fn lemma_count_removed_after_removal(a: Seq<Coin>, b: Seq<Coin>, x: int, y: int, k: int)
    requires
        a.len() == b.len(),
        0 <= k <= a.len(),
        !(x == -1 && y == -1),
        forall|i: int|
            0 <= i < a.len() ==> #[trigger] b[i] == if coin_at(a[i], x, y) {
                Coin { x: -1i32, y: -1i32 }
            } else {
                a[i]
            },
    ensures
        count_removed(b, k) == count_removed(a, k) + count_at(a, x, y, k),
    decreases k,
{
    if k > 0 {
        lemma_count_removed_after_removal(a, b, x, y, k - 1);
        assert(b[k - 1] == if coin_at(a[k - 1], x, y) {
            Coin { x: -1i32, y: -1i32 }
        } else {
            a[k - 1]
        });
    }
}

/// How many of the removed objects among the first `k` `relocate_coins(amount)` brings back.
pub open spec fn relocated_upto(s: Seq<Coin>, amount: int, k: int) -> int {
    let n = count_removed(s, k) as int;
    if amount == 0 || n <= amount {
        n
    } else {
        amount
    }
}

/// Bringing objects back takes them out of the removed ones.
proof fn lemma_count_removed_after_relocation(a: Seq<Coin>, b: Seq<Coin>, amount: int, k: int)
    requires
        a.len() == b.len(),
        0 <= k <= a.len(),
        0 <= amount,
        forall|i: int|
            0 <= i < a.len() ==> if relocates(a, amount, i) {
                !removed(#[trigger] b[i])
            } else {
                b[i] == a[i]
            },
    ensures
        count_removed(b, k) == count_removed(a, k) - relocated_upto(a, amount, k),
    decreases k,
{
    if k > 0 {
        lemma_count_removed_after_relocation(a, b, amount, k - 1);
        let i = k - 1;
        if relocates(a, amount, i) {
            assert(!removed(b[i]));
        } else {
            assert(b[i] == a[i]);
        }
    }
}

/// A spawn point is never the parking spot: both coordinates are at least 0.
proof fn lemma_spawn_point_placed(m: Maze, p: (i32, i32))
    requires
        m.wf(),
        m.spawn_point(p),
    ensures
        p.0 >= 0 && p.1 >= 0,
{
    if p != (1i32, 1i32) {
        let w = m.width as int;
        let h = m.height as int;
        let tw = m.tile_width as int;
        let th = m.tile_height as int;
        let (tx, ty) = choose|tx: int, ty: int|
            #[trigger] free_tile_in(m.data@, w, h, tx, ty) && p.0 == tx * tw && p.1 == ty * th;
        assert(tx * tw >= 0 && ty * th >= 0) by (nonlinear_arith)
            requires
                tx >= 0,
                ty >= 0,
                tw >= 1,
                th >= 1,
        ;
    }
}

/// The coin counter counts the coins on the map once the coins are
/// generated: all of them are placed and the counter is 100.
pub proof fn lemma_generated_coins_counted(a: Maze, b: Maze)
    requires
        a.wf(),
        a.coins_generated(b),
    ensures
        b.coins_counted(),
{
    assert forall|i: int| 0 <= i < COIN_COUNT implies !removed(#[trigger] b.coins@[i]) by {
        lemma_spawn_point_placed(b, (b.coins@[i].x, b.coins@[i].y));
    }
    lemma_count_removed_none(b.coins@, COIN_COUNT as int);
}

/// Collecting the coins at a position (other than the parking spot) keeps
/// the counter counting the coins on the map.
pub proof fn lemma_removal_keeps_count(a: Maze, b: Maze, x: int, y: int)
    requires
        a.wf(),
        a.coins_counted(),
        a.coins_removed(b, x, y),
        !(x == -1 && y == -1),
    ensures
        b.coins_counted(),
{
    lemma_count_removed_after_removal(a.coins@, b.coins@, x, y, COIN_COUNT as int);
    lemma_count_at_and_removed(a.coins@, x, y, COIN_COUNT as int);
}

/// Bringing removed coins back keeps the counter counting the coins on the map.
pub proof fn lemma_relocation_keeps_count(a: Maze, b: Maze, amount: int)
    requires
        a.wf(),
        a.coins_counted(),
        a.coins_relocated(b, amount),
        0 <= amount,
    ensures
        b.coins_counted(),
{
    assert forall|i: int| 0 <= i < a.coins@.len() implies if relocates(a.coins@, amount, i) {
        !removed(#[trigger] b.coins@[i])
    } else {
        b.coins@[i] == a.coins@[i]
    } by {
        if relocates(a.coins@, amount, i) {
            lemma_spawn_point_placed(b, (b.coins@[i].x, b.coins@[i].y));
        }
    }
    lemma_count_removed_after_relocation(a.coins@, b.coins@, amount, COIN_COUNT as int);
}

impl Coin {
    pub fn new(x: i32, y: i32) -> (r: Self)
        ensures
            r.x == x,
            r.y == y,
    {
        Self { x, y }
    }
}

impl Maze {
    /// The border, in tiles, around the playable area.
    pub const MARGIN: i32 = 0;

    /// The invariant of every map the game plays on: the object arrays have
    /// their fixed sizes, the grid fits the 64 x 64 tile store, tiles have a
    /// sensible size and every NPC holds small coordinates and a unit-step vector.
    pub open spec fn wf(self) -> bool {
        &&& self.data@.len() == MAZE_CELLS
        &&& self.coins@.len() == COIN_COUNT
        &&& self.npcs@.len() == NPC_COUNT
        &&& self.walkers@.len() == WALKER_COUNT
        &&& self.dynamites@.len() == DYNAMITE_COUNT
        &&& 1 <= self.width
        &&& 1 <= self.height
        &&& self.width * self.height <= MAZE_CELLS
        &&& 1 <= self.tile_width <= 4096
        &&& 1 <= self.tile_height <= 4096
        &&& forall|i: int| 0 <= i < NPC_COUNT ==> npc_ok(#[trigger] self.npcs@[i])
    }

    /// The fields that describe the tile map (everything but the objects,
    /// their counter and the generator).
    pub open spec fn same_layout(self, other: Maze) -> bool {
        &&& self.width == other.width
        &&& self.height == other.height
        &&& self.visible_width == other.visible_width
        &&& self.visible_height == other.visible_height
        &&& self.data@ == other.data@
        &&& self.offset == other.offset
        &&& self.tile_width == other.tile_width
        &&& self.tile_height == other.tile_height
    }

    /// Everything but the generator is the same.
    pub open spec fn same_but_rng(self, other: Maze) -> bool {
        &&& self.same_layout(other)
        &&& self.coins@ == other.coins@
        &&& self.coin_counter == other.coin_counter
        &&& self.npcs@ == other.npcs@
        &&& self.walkers@ == other.walkers@
        &&& self.dynamites@ == other.dynamites@
    }

    /// Width of the map in pixels.
    pub open spec fn pixel_width(self) -> int {
        self.width * self.tile_width
    }

    /// Height of the map in pixels.
    pub open spec fn pixel_height(self) -> int {
        self.height * self.tile_height
    }

    /// Whether tile (tx, ty) is ground.
    pub open spec fn free_tile(self, tx: int, ty: int) -> bool {
        free_tile_in(self.data@, self.width as int, self.height as int, tx, ty)
    }

    /// A position that `get_random_coordinates` can return: the top-left
    /// pixel of a ground tile, or the fallback (1, 1) when some tile is a
    /// wall (so that the random draws can miss).
    pub open spec fn spawn_point(self, p: (i32, i32)) -> bool {
        spawn_in(
            self.data@,
            self.width as int,
            self.height as int,
            self.tile_width as int,
            self.tile_height as int,
            p,
        )
    }

    /// The top-left pixel of a ground tile.
    pub open spec fn ground_spot(self, p: (i32, i32)) -> bool {
        exists|tx: int, ty: int|
            #[trigger] self.free_tile(tx, ty) && p.0 == tx * self.tile_width && p.1 == ty
                * self.tile_height
    }

    /// Whether every tile of the map is ground.
    pub open spec fn all_ground(self) -> bool {
        all_ground_in(self.data@, self.width as int, self.height as int)
    }

    /// Whether the map has a ground tile at all.
    pub open spec fn has_ground(self) -> bool {
        exists|tx: int, ty: int| #[trigger] self.free_tile(tx, ty)
    }

    /// On a map whose every tile is ground, a spawn point is the top-left
    /// pixel of a ground tile: the fallback (1, 1) never comes up there.
    pub proof fn lemma_spawn_on_all_ground(self, p: (i32, i32))
        requires
            self.all_ground(),
            self.spawn_point(p),
        ensures
            self.ground_spot(p),
    {
        let (tx, ty) = choose|tx: int, ty: int|
            #[trigger] free_tile_in(
                self.data@,
                self.width as int,
                self.height as int,
                tx,
                ty,
            ) && p.0 == tx * self.tile_width && p.1 == ty * self.tile_height;
        assert(self.free_tile(tx, ty));
    }

    /// Whether pixel (x, y) lies outside the map.
    pub open spec fn outside(self, x: int, y: int) -> bool {
        x < 0 || y < 0 || x >= self.pixel_width() || y >= self.pixel_height()
    }

    /// Whether pixel (x, y) counts as a wall: it lies outside the playable
    /// area, or the tile that the map assigns to it is a wall. The row is
    /// taken as `height - 1 - (63 - y / tile_height)`.
    pub open spec fn wall_at(self, x: int, y: int) -> bool {
        if self.outside(x, y) {
            true
        } else {
            let tile_x = x / self.tile_width as int;
            let tile_y = 63 - y / self.tile_height as int;
            let row = (self.height - 1) - tile_y;
            if tile_x < 0 || row < 0 || tile_x >= self.width || row >= self.height {
                true
            } else {
                self.data@[row * self.width + tile_x] == 1
            }
        }
    }

    /// The tile map after `set_tile_at(x, y, tile)`.
    pub open spec fn with_tile(self, data: Seq<u8>, x: int, y: int, tile: u8) -> Seq<u8> {
        let tx = tdiv(x, self.tile_width as int);
        let ty = tdiv(y, self.tile_height as int);
        if tx < 0 || ty < 0 || tx >= self.width || ty >= self.height {
            data
        } else {
            data.update(ty * self.width + tx, tile)
        }
    }

    /// The tile map after `place_dynamite(x, y)`: the eight tiles around
    /// (x, y) scorched, row by row from the top left.
    pub open spec fn blasted(self, x: int, y: int) -> Seq<u8> {
        let t = self.tile_width as int;
        let d0 = self.data@;
        let d1 = self.with_tile(d0, x - t, y - t, 2);
        let d2 = self.with_tile(d1, x, y - t, 2);
        let d3 = self.with_tile(d2, x + t, y - t, 2);
        let d4 = self.with_tile(d3, x - t, y, 2);
        let d5 = self.with_tile(d4, x + t, y, 2);
        let d6 = self.with_tile(d5, x - t, y + t, 2);
        let d7 = self.with_tile(d6, x, y + t, 2);
        self.with_tile(d7, x + t, y + t, 2)
    }

    /// `next` is this map after `remove_coin` of a coin at (x, y): every
    /// coin at (x, y) is removed and counted down, never below zero.
    pub open spec fn coins_removed(self, next: Maze, x: int, y: int) -> bool {
        &&& next.wf()
        &&& next.same_layout(self)
        &&& next.npcs@ == self.npcs@
        &&& next.walkers@ == self.walkers@
        &&& next.dynamites@ == self.dynamites@
        &&& next.coin_counter == sat_sub(
            self.coin_counter as int,
            count_at(self.coins@, x, y, COIN_COUNT as int) as int,
        )
        &&& forall|i: int|
            0 <= i < COIN_COUNT ==> #[trigger] next.coins@[i] == if coin_at(self.coins@[i], x, y) {
                Coin { x: -1i32, y: -1i32 }
            } else {
                self.coins@[i]
            }
    }

    /// `next` is this map after `generate_coins`: every coin on a spawn
    /// point of its own and the counter at 100, the rest unchanged.
    pub open spec fn coins_generated(self, next: Maze) -> bool {
        &&& next.wf()
        &&& next.same_layout(self)
        &&& next.npcs@ == self.npcs@
        &&& next.walkers@ == self.walkers@
        &&& next.dynamites@ == self.dynamites@
        &&& next.coin_counter == 100
        &&& forall|i: int|
            #![trigger next.coins@[i]]
            0 <= i < COIN_COUNT ==> next.spawn_point((next.coins@[i].x, next.coins@[i].y))
    }

    /// `next` is this map after `relocate_coins(amount)`: the removed coins
    /// that `relocates` picks are on spawn points of their own and counted,
    /// the rest unchanged.
    pub open spec fn coins_relocated(self, next: Maze, amount: int) -> bool {
        &&& next.wf()
        &&& next.same_layout(self)
        &&& next.npcs@ == self.npcs@
        &&& next.walkers@ == self.walkers@
        &&& next.dynamites@ == self.dynamites@
        &&& next.coin_counter == self.coin_counter + relocated_total(self.coins@, amount)
        &&& forall|i: int|
            #![trigger next.coins@[i]]
            0 <= i < COIN_COUNT ==> if relocates(self.coins@, amount, i) {
                next.spawn_point((next.coins@[i].x, next.coins@[i].y))
            } else {
                next.coins@[i] == self.coins@[i]
            }
    }

    /// The tile map is `base` with a `gw` x `gh` maze carved into it: for
    /// some passages that join every cell of the grid, each tile that
    /// `carved` names is ground and every other tile is as in `base`.
    pub open spec fn carved_over(self, base: Seq<u8>, gw: int, gh: int) -> bool {
        exists|edges: Set<((i32, i32), (i32, i32))>|
            #[trigger] spanning_passages(edges, gw, gh) && forall|i: int|
                0 <= i < MAZE_CELLS ==> #[trigger] self.data@[i] == if carved(
                    edges,
                    gw,
                    gh,
                    self.width as int,
                    self.offset as int,
                    i,
                ) {
                    0u8
                } else {
                    base[i]
                }
    }

    /// Every object is in play: coins, walkers and dynamite on spawn points,
    /// NPCs on spawn points with an axis vector and 1 to 4 steps, and the
    /// coin counter counting the coins.
    pub open spec fn populated(self) -> bool {
        &&& forall|i: int|
            #![trigger self.coins@[i]]
            0 <= i < COIN_COUNT ==> self.spawn_point((self.coins@[i].x, self.coins@[i].y))
        &&& forall|i: int|
            #![trigger self.walkers@[i]]
            0 <= i < WALKER_COUNT ==> self.spawn_point((self.walkers@[i].x, self.walkers@[i].y))
        &&& forall|i: int|
            #![trigger self.dynamites@[i]]
            0 <= i < DYNAMITE_COUNT ==> self.spawn_point((self.dynamites@[i].x, self.dynamites@[i].y))
        &&& forall|i: int|
            0 <= i < NPC_COUNT ==> {
                let n = #[trigger] self.npcs@[i];
                &&& self.spawn_point((n.x, n.y))
                &&& axis_vector(n.vector_x, n.vector_y)
                &&& 1 <= n.steps_remaining <= 4
            }
        &&& self.coins_counted()
    }

    /// The counter counts the coins on the map: it equals the number of
    /// coins that have not been removed.
    pub open spec fn coins_counted(self) -> bool {
        self.coin_counter == COIN_COUNT - count_removed(self.coins@, COIN_COUNT as int)
    }

    /// `next` is this map after `relocate_walker` of a walker at (x, y):
    /// every walker there moved to a spawn point of its own, the others stay.
    pub open spec fn walkers_relocated(self, next: Maze, x: int, y: int) -> bool {
        &&& next.wf()
        &&& next.same_layout(self)
        &&& next.coins@ == self.coins@
        &&& next.coin_counter == self.coin_counter
        &&& next.npcs@ == self.npcs@
        &&& next.dynamites@ == self.dynamites@
        &&& forall|i: int|
            #![trigger next.walkers@[i]]
            0 <= i < WALKER_COUNT ==> if coin_at(self.walkers@[i], x, y) {
                next.spawn_point((next.walkers@[i].x, next.walkers@[i].y))
            } else {
                next.walkers@[i] == self.walkers@[i]
            }
    }

    /// `next` is this map after `relocate_dynamite` of a dynamite at (x, y).
    pub open spec fn dynamites_relocated(self, next: Maze, x: int, y: int) -> bool {
        &&& next.wf()
        &&& next.same_layout(self)
        &&& next.coins@ == self.coins@
        &&& next.coin_counter == self.coin_counter
        &&& next.npcs@ == self.npcs@
        &&& next.walkers@ == self.walkers@
        &&& forall|i: int|
            #![trigger next.dynamites@[i]]
            0 <= i < DYNAMITE_COUNT ==> if coin_at(self.dynamites@[i], x, y) {
                next.spawn_point((next.dynamites@[i].x, next.dynamites@[i].y))
            } else {
                next.dynamites@[i] == self.dynamites@[i]
            }
    }

    /// `next` is this map after `move_npcs`: each NPC advances one tile
    /// along its vector, or, where that tile is a wall, stays and takes a
    /// new random vector.
    pub open spec fn npcs_moved(self, next: Maze) -> bool {
        &&& next.wf()
        &&& next.same_layout(self)
        &&& next.coins@ == self.coins@
        &&& next.coin_counter == self.coin_counter
        &&& next.walkers@ == self.walkers@
        &&& next.dynamites@ == self.dynamites@
        &&& forall|i: int|
            0 <= i < NPC_COUNT ==> {
                let o = self.npcs@[i];
                let n = #[trigger] next.npcs@[i];
                let nx = o.x + o.vector_x * self.tile_width;
                let ny = o.y + o.vector_y * self.tile_height;
                if self.wall_at(nx, ny) {
                    &&& n.x == o.x
                    &&& n.y == o.y
                    &&& n.steps_remaining == o.steps_remaining
                    &&& wander_vector(n.vector_x, n.vector_y)
                } else {
                    n == Npc { x: nx as i32, y: ny as i32, ..o }
                }
            }
    }

    /// Create a new maze with the given dimensions and an optional seed.
    /// Every tile starts as wall and every object as removed.
    pub fn new(width: u32, height: u32, seed: Option<[u8; 32]>) -> (r: Self)
        requires
            width < u32::MAX,
        ensures
            r.width == width,
            r.height == height,
            r.visible_width == 21,
            r.visible_height == 16,
            r.offset == width + 1,
            r.tile_width == 16,
            r.tile_height == 16,
            r.coin_counter == 100,
            r.data@.len() == MAZE_CELLS,
            forall|i: int| 0 <= i < MAZE_CELLS ==> #[trigger] r.data@[i] == 1,
            r.coins@.len() == COIN_COUNT,
            forall|i: int| 0 <= i < COIN_COUNT ==> removed(#[trigger] r.coins@[i]),
            r.npcs@.len() == NPC_COUNT,
            forall|i: int|
                0 <= i < NPC_COUNT ==> #[trigger] r.npcs@[i] == (Npc {
                    x: -1i32,
                    y: -1i32,
                    vector_x: 0i32,
                    vector_y: 0i32,
                    steps_remaining: 0i32,
                }),
            r.walkers@.len() == WALKER_COUNT,
            forall|i: int| 0 <= i < WALKER_COUNT ==> removed(#[trigger] r.walkers@[i]),
            r.dynamites@.len() == DYNAMITE_COUNT,
            forall|i: int| 0 <= i < DYNAMITE_COUNT ==> removed(#[trigger] r.dynamites@[i]),
            1 <= width && 1 <= height && width * height <= MAZE_CELLS ==> r.wf(),
    {
        let npc = Npc { x: -1, y: -1, vector_x: 0, vector_y: 0, steps_remaining: 0 };
        Self {
            width,
            height,
            visible_width: 21,
            visible_height: 16,
            data: vec![1u8; MAZE_CELLS],
            offset: width + 1,
            tile_width: 16,
            tile_height: 16,
            coins: vec![Coin { x: -1, y: -1 }; COIN_COUNT],
            coin_counter: 100,
            npcs: vec![npc; NPC_COUNT],
            walkers: vec![Coin { x: -1, y: -1 }; WALKER_COUNT],
            dynamites: vec![Coin { x: -1, y: -1 }; DYNAMITE_COUNT],
            rng: match seed {
                None => rng_from_seed([42u8; 32]),
                Some(s) => rng_from_seed(s),
            },
        }
    }

    /// Return a random number in the range 0..255.
    pub fn get_rand(&mut self) -> (r: i32)
        ensures
            0 <= r < 255,
            final(self).same_but_rng(*old(self)),
    {
        rng_range_i32(&mut self.rng, 0, 255)
    }

    /// Check if a given pixel coordinate is outside the maze boundaries.
    pub fn check_boundary_collision(&self, x: i32, y: i32) -> (r: bool)
        requires
            self.wf(),
        ensures
            r == self.outside(x as int, y as int),
    {
        proof {
            self.lemma_pixel_extent();
        }
        x < 0 || y < 0 || x >= (self.width * self.tile_width) as i32 || y >= (self.height
            * self.tile_height) as i32
    }

    proof fn lemma_pixel_extent(self)
        requires
            self.wf(),
        ensures
            self.width <= 4096,
            self.height <= 4096,
            0 < self.pixel_width() <= 4096 * 4096,
            0 < self.pixel_height() <= 4096 * 4096,
    {
        let w = self.width as int;
        let h = self.height as int;
        let tw = self.tile_width as int;
        let th = self.tile_height as int;
        assert(w <= 4096 && h <= 4096) by (nonlinear_arith)
            requires
                1 <= w,
                1 <= h,
                w * h <= 4096,
        ;
        assert(0 < w * tw <= 4096 * 4096) by (nonlinear_arith)
            requires
                1 <= w <= 4096,
                1 <= tw <= 4096,
        ;
        assert(0 < h * th <= 4096 * 4096) by (nonlinear_arith)
            requires
                1 <= h <= 4096,
                1 <= th <= 4096,
        ;
    }

    /// Cell (tx, ty) of the grid lies inside the tile store.
    proof fn lemma_tile_index(self, tx: int, ty: int)
        requires
            self.wf(),
            0 <= tx < self.width,
            0 <= ty < self.height,
        ensures
            0 <= ty * self.width + tx < self.width * self.height,
            ty * self.width + tx < MAZE_CELLS,
            0 <= tx * self.tile_width < self.pixel_width(),
            0 <= ty * self.tile_height < self.pixel_height(),
    {
        let w = self.width as int;
        let h = self.height as int;
        let tw = self.tile_width as int;
        let th = self.tile_height as int;
        assert(0 <= ty * w + tx < w * h) by (nonlinear_arith)
            requires
                0 <= tx < w,
                0 <= ty < h,
        ;
        assert(0 <= tx * tw < w * tw) by (nonlinear_arith)
            requires
                0 <= tx < w,
                1 <= tw,
        ;
        assert(0 <= ty * th < h * th) by (nonlinear_arith)
            requires
                0 <= ty < h,
                1 <= th,
        ;
    }

    /// Only wall tiles block. For a pixel inside the map whose tile lies in
    /// the grid (column `x / tile_width`, row `height - 1 - (63 - y /
    /// tile_height)`), the pixel collides exactly when that tile holds 1:
    /// ground (0) and scorched ground (2) never block.
    pub proof fn lemma_only_walls_block(self, x: int, y: int)
        requires
            self.wf(),
            0 <= x < self.pixel_width(),
            0 <= y < self.pixel_height(),
            0 <= (self.height - 1) - (63 - y / self.tile_height as int) < self.height,
        ensures
            ({
                let tile = self.data@[((self.height - 1) - (63 - y / self.tile_height as int)) * self.width
                    + x / self.tile_width as int];
                &&& tile == 0 ==> !self.wall_at(x, y)
                &&& tile == 2 ==> !self.wall_at(x, y)
                &&& self.wall_at(x, y) <==> tile == 1
            }),
    {
        let tw = self.tile_width as int;
        let w = self.width as int;
        assert(0 <= x / tw < w) by (nonlinear_arith)
            requires
                0 <= x < w * tw,
                0 < tw,
        {
            vstd::arithmetic::div_mod::lemma_fundamental_div_mod(x, tw);
            assert(x == tw * (x / tw) + x % tw);
            assert(0 <= x % tw < tw);
        }
    }

    /// Check if the pixel coordinate (x, y) collides with a wall.
    /// Coordinates are assumed to be in world space.
    pub fn check_wall_collision(&self, x: i32, y: i32) -> (r: bool)
        requires
            self.wf(),
        ensures
            r == self.wall_at(x as int, y as int),
    {
        proof {
            self.lemma_pixel_extent();
        }
        let (left, bottom, right, top) = self.playable_bounds();
        // If outside playable bounds, treat as collision.
        if x < left || x >= right || y < bottom || y >= top {
            return true;
        }
        // Compute the tile coordinates relative to the playable area.
        let tile_x = (x - left) / self.tile_width as i32;
        let tile_y = 63 - (y - bottom) / self.tile_height as i32;
        // Our maze data array is laid out with row 0 at the top.
        let maze_row = (self.height as i32 - 1) - tile_y;
        if tile_x < 0 || maze_row < 0 || tile_x >= self.width as i32 || maze_row >= self.height as i32 {
            return true;
        }
        proof {
            self.lemma_tile_index(tile_x as int, maze_row as int);
        }
        let tile_index = (maze_row * self.width as i32 + tile_x) as usize;
        self.data[tile_index] == 1
    }

    /// The pixel position of tile (tx, ty) when that tile is ground.
    pub fn walkable_tile_position(&self, tx: i32, ty: i32) -> (r: Option<(i32, i32)>)
        requires
            self.wf(),
            0 <= tx < self.width,
            0 <= ty < self.height,
        ensures
            r is Some <==> self.free_tile(tx as int, ty as int),
            r matches Some(p) ==> p.0 == tx * self.tile_width && p.1 == ty * self.tile_height,
    {
        proof {
            self.lemma_pixel_extent();
            self.lemma_tile_index(tx as int, ty as int);
        }
        let x = tx * self.tile_width as i32;
        let y = ty * self.tile_height as i32;
        let index = (ty * self.width as i32 + tx) as usize;
        if self.data[index] == 0 {
            Some((x, y))
        } else {
            None
        }
    }

    /// The top-left pixel of the first ground tile, row by row from the top
    /// and left to right in each row; `None` when the map has no ground.
    pub fn first_free_tile(&self) -> (r: Option<(i32, i32)>)
        requires
            self.wf(),
        ensures
            r is None <==> !self.has_ground(),
            r matches Some(p) ==> self.ground_spot(p),
    {
        proof {
            self.lemma_pixel_extent();
        }
        let mut ty: i32 = 0;
        while ty < self.height as i32
            invariant
                self.wf(),
                self.width <= 4096,
                self.height <= 4096,
                0 <= ty <= self.height,
                forall|x: int, y: int| 0 <= y < ty ==> !#[trigger] self.free_tile(x, y),
            decreases self.height - ty,
        {
            let mut tx: i32 = 0;
            while tx < self.width as i32
                invariant
                    self.wf(),
                    self.width <= 4096,
                    self.height <= 4096,
                    0 <= ty < self.height,
                    0 <= tx <= self.width,
                    forall|x: int, y: int| 0 <= y < ty ==> !#[trigger] self.free_tile(x, y),
                    forall|x: int| 0 <= x < tx ==> !#[trigger] self.free_tile(x, ty as int),
                decreases self.width - tx,
            {
                if let Some(p) = self.walkable_tile_position(tx, ty) {
                    assert(self.free_tile(tx as int, ty as int));
                    return Some(p);
                }
                tx += 1;
            }
            assert forall|x: int, y: int| 0 <= y < ty + 1 implies !#[trigger] self.free_tile(x, y) by {
                if y == ty && 0 <= x < self.width {
                } 
            }
            ty += 1;
        }
        None
    }

    /// A tile of the grid drawn at random: a column in `0..width`, then a
    /// row in `0..height`. Only the generator changes.
    fn random_tile(&mut self) -> (r: (i32, i32))
        requires
            old(self).wf(),
        ensures
            final(self).same_but_rng(*old(self)),
            final(self).wf(),
            0 <= r.0 < old(self).width,
            0 <= r.1 < old(self).height,
    {
        proof {
            self.lemma_pixel_extent();
        }
        let tx = rng_range_i32(&mut self.rng, 0, self.width as i32);
        let ty = rng_range_i32(&mut self.rng, 0, self.height as i32);
        (tx, ty)
    }

    /// Return a random valid coordinate (in pixel space) where the tile is walkable.
    /// Instead of building an entire list of valid coordinates, we repeatedly generate
    /// random tile indices (which are in the range 0..width and 0..height) and check if
    /// that tile is walkable. We try at most 10 times before returning a default coordinate.
    pub fn get_random_coordinates(&mut self) -> (r: (i32, i32))
        requires
            old(self).wf(),
        ensures
            final(self).same_but_rng(*old(self)),
            final(self).spawn_point(r),
            old(self).all_ground() ==> final(self).ground_spot(r),
    {
        proof {
            self.lemma_pixel_extent();
        }
        let mut attempt: usize = 0;
        while attempt < 10
            invariant
                self.wf(),
                self.same_but_rng(*old(self)),
                self.width <= 4096,
                self.height <= 4096,
                attempt > 0 ==> !self.all_ground(),
            decreases 10 - attempt,
        {
            let (tx, ty) = self.random_tile();
            // Our data array is laid out row-major with row 0 at the top.
            if let Some(p) = self.walkable_tile_position(tx, ty) {
                return p;
            }
            assert(!self.free_tile(tx as int, ty as int));
            attempt += 1;
        }
        // Fallback coordinate if no valid tile was found in 10 attempts.
        (1, 1)
    }

    /// Put every coin on a spawn point of its own and set the counter to 100.
    pub fn generate_coins(&mut self)
        requires
            old(self).wf(),
        ensures
            old(self).coins_generated(*final(self)),
    {
        let mut index: usize = 0;
        while index < COIN_COUNT
            invariant
                index <= COIN_COUNT,
                self.wf(),
                self.same_layout(*old(self)),
                self.npcs@ == old(self).npcs@,
                self.walkers@ == old(self).walkers@,
                self.dynamites@ == old(self).dynamites@,
                self.coin_counter == old(self).coin_counter,
                forall|i: int|
                    #![trigger self.coins@[i]]
                    0 <= i < index ==> self.spawn_point(
                        (self.coins@[i].x, self.coins@[i].y),
                    ),
            decreases COIN_COUNT - index,
        {
            let (new_x, new_y) = self.get_random_coordinates();
            self.coins.set(index, Coin { x: new_x, y: new_y });
            index += 1;
        }
        self.coin_counter = 100;
    }

    proof fn lemma_count_removed_le(s: Seq<Coin>, k: int)
        requires
            0 <= k,
        ensures
            count_removed(s, k) <= k,
        decreases k,
    {
        if k > 0 {
            Self::lemma_count_removed_le(s, k - 1);
        }
    }

    /// Move up to `amount` removed coins (all of them when `amount` is 0)
    /// back onto the map, in index order, counting each one.
    pub fn relocate_coins(&mut self, amount: u32)
        requires
            old(self).wf(),
            old(self).coin_counter + COIN_COUNT <= u32::MAX,
        ensures
            old(self).coins_relocated(*final(self), amount as int),
    {
        let ghost coins0 = self.coins@;
        let mut relocate_counter: u32 = 0;
        let mut index: usize = 0;
        while index < COIN_COUNT
            invariant_except_break
                relocate_counter == count_removed(coins0, index as int),
                amount == 0 || relocate_counter < amount,
                relocate_counter <= index,
                forall|i: int|
                    index <= i < COIN_COUNT ==> #[trigger] self.coins@[i] == coins0[i],
                forall|i: int|
                    #![trigger self.coins@[i]]
                    0 <= i < index ==> if relocates(coins0, amount as int, i) {
                        self.spawn_point((self.coins@[i].x, self.coins@[i].y))
                    } else {
                        self.coins@[i] == coins0[i]
                    },
            invariant
                index <= COIN_COUNT,
                self.wf(),
                self.same_layout(*old(self)),
                self.npcs@ == old(self).npcs@,
                self.walkers@ == old(self).walkers@,
                self.dynamites@ == old(self).dynamites@,
                coins0 == old(self).coins@,
                old(self).coin_counter + COIN_COUNT <= u32::MAX,
                self.coin_counter == old(self).coin_counter + relocate_counter,
                coins0.len() == COIN_COUNT,
            ensures
                self.coin_counter == old(self).coin_counter + relocated_total(coins0, amount as int),
                forall|i: int|
                    #![trigger self.coins@[i]]
                    0 <= i < COIN_COUNT ==> if relocates(coins0, amount as int, i) {
                        self.spawn_point((self.coins@[i].x, self.coins@[i].y))
                    } else {
                        self.coins@[i] == coins0[i]
                    },
            decreases COIN_COUNT - index,
        {
            proof {
                Self::lemma_count_removed_le(coins0, index as int);
            }
            if self.coins[index].x == -1 && self.coins[index].y == -1 {
                let (new_x, new_y) = self.get_random_coordinates();
                self.coins.set(index, Coin { x: new_x, y: new_y });
                relocate_counter += 1;
                self.coin_counter += 1;
                assert(count_removed(coins0, index + 1) == count_removed(coins0, index as int) + 1);
                if relocate_counter == amount {
                    proof {
                        // no later coin is moved: at least `amount` removed coins come before it
                        assert forall|i: int| index < i < COIN_COUNT implies !relocates(
                            coins0,
                            amount as int,
                            i,
                        ) by {
                            Self::lemma_count_removed_mono(coins0, index + 1, i);
                        }
                        Self::lemma_count_removed_mono(coins0, index + 1, COIN_COUNT as int);
                        Self::lemma_count_removed_le(coins0, COIN_COUNT as int);
                    }
                    break;
                }
            }
            index += 1;
        }
        proof {
            Self::lemma_count_removed_le(coins0, COIN_COUNT as int);
        }
    }

    proof fn lemma_count_removed_mono(s: Seq<Coin>, j: int, k: int)
        requires
            0 <= j <= k,
        ensures
            count_removed(s, j) <= count_removed(s, k),
        decreases k - j,
    {
        if j < k {
            Self::lemma_count_removed_mono(s, j, k - 1);
        }
    }

    /// Put every walker on a spawn point of its own.
    pub fn generate_walkers(&mut self)
        requires
            old(self).wf(),
        ensures
            final(self).wf(),
            final(self).same_layout(*old(self)),
            final(self).coins@ == old(self).coins@,
            final(self).coin_counter == old(self).coin_counter,
            final(self).npcs@ == old(self).npcs@,
            final(self).dynamites@ == old(self).dynamites@,
            forall|i: int|
                #![trigger final(self).walkers@[i]]
                0 <= i < WALKER_COUNT ==> final(self).spawn_point(
                    (final(self).walkers@[i].x, final(self).walkers@[i].y),
                ),
    {
        let mut index: usize = 0;
        while index < WALKER_COUNT
            invariant
                index <= WALKER_COUNT,
                self.wf(),
                self.same_layout(*old(self)),
                self.coins@ == old(self).coins@,
                self.coin_counter == old(self).coin_counter,
                self.npcs@ == old(self).npcs@,
                self.dynamites@ == old(self).dynamites@,
                forall|i: int|
                    #![trigger self.walkers@[i]]
                    0 <= i < index ==> self.spawn_point(
                        (self.walkers@[i].x, self.walkers@[i].y),
                    ),
            decreases WALKER_COUNT - index,
        {
            let (new_x, new_y) = self.get_random_coordinates();
            self.walkers.set(index, Coin { x: new_x, y: new_y });
            index += 1;
        }
    }

    /// Put every dynamite pickup on a spawn point of its own.
    pub fn generate_dynamites(&mut self)
        requires
            old(self).wf(),
        ensures
            final(self).wf(),
            final(self).same_layout(*old(self)),
            final(self).coins@ == old(self).coins@,
            final(self).coin_counter == old(self).coin_counter,
            final(self).npcs@ == old(self).npcs@,
            final(self).walkers@ == old(self).walkers@,
            forall|i: int|
                #![trigger final(self).dynamites@[i]]
                0 <= i < DYNAMITE_COUNT ==> final(self).spawn_point(
                    (final(self).dynamites@[i].x, final(self).dynamites@[i].y),
                ),
    {
        let mut index: usize = 0;
        while index < DYNAMITE_COUNT
            invariant
                index <= DYNAMITE_COUNT,
                self.wf(),
                self.same_layout(*old(self)),
                self.coins@ == old(self).coins@,
                self.coin_counter == old(self).coin_counter,
                self.npcs@ == old(self).npcs@,
                self.walkers@ == old(self).walkers@,
                forall|i: int|
                    #![trigger self.dynamites@[i]]
                    0 <= i < index ==> self.spawn_point(
                        (self.dynamites@[i].x, self.dynamites@[i].y),
                    ),
            decreases DYNAMITE_COUNT - index,
        {
            let (new_x, new_y) = self.get_random_coordinates();
            self.dynamites.set(index, Coin { x: new_x, y: new_y });
            index += 1;
        }
    }

    proof fn lemma_spawn_point_pixels(self, p: (i32, i32))
        requires
            self.wf(),
            self.spawn_point(p),
        ensures
            pixel_ok(p.0 as int),
            pixel_ok(p.1 as int),
    {
        if p != (1i32, 1i32) {
            let (tx, ty) = choose|tx: int, ty: int|
                #[trigger] free_tile_in(self.data@, self.width as int, self.height as int, tx, ty)
                    && p.0 == tx * self.tile_width && p.1 == ty * self.tile_height;
            self.lemma_pixel_extent();
            self.lemma_tile_index(tx, ty);
        }
    }

    /// Put every NPC on a random walkable tile with a random axis direction
    /// and 1 to 4 steps.
    pub fn generate_npcs(&mut self)
        requires
            old(self).wf(),
        ensures
            final(self).wf(),
            final(self).same_layout(*old(self)),
            final(self).coins@ == old(self).coins@,
            final(self).coin_counter == old(self).coin_counter,
            final(self).walkers@ == old(self).walkers@,
            final(self).dynamites@ == old(self).dynamites@,
            forall|i: int|
                0 <= i < NPC_COUNT ==> {
                    let n = #[trigger] final(self).npcs@[i];
                    &&& final(self).spawn_point((n.x, n.y))
                    &&& axis_vector(n.vector_x, n.vector_y)
                    &&& 1 <= n.steps_remaining <= 4
                },
    {
        let mut index: usize = 0;
        while index < NPC_COUNT
            invariant
                index <= NPC_COUNT,
                self.wf(),
                self.same_layout(*old(self)),
                self.coins@ == old(self).coins@,
                self.coin_counter == old(self).coin_counter,
                self.walkers@ == old(self).walkers@,
                self.dynamites@ == old(self).dynamites@,
                forall|i: int|
                    0 <= i < index ==> {
                        let n = #[trigger] self.npcs@[i];
                        &&& self.spawn_point((n.x, n.y))
                        &&& axis_vector(n.vector_x, n.vector_y)
                        &&& 1 <= n.steps_remaining <= 4
                    },
            decreases NPC_COUNT - index,
        {
            let (new_x, new_y) = self.get_random_coordinates();
            // Choose a random direction from the four cardinal directions.
            let directions: [(i32, i32); 4] = [(1, 0), (-1, 0), (0, 1), (0, -1)];
            let idx = self.get_rand() as usize % 4;
            let (vx, vy) = directions[idx];
            // Random steps between 1 and 4.
            let steps = (self.get_rand() % 4) + 1;
            proof {
                self.lemma_spawn_point_pixels((new_x, new_y));
            }
            self.npcs.set(
                index,
                Npc { x: new_x, y: new_y, vector_x: vx, vector_y: vy, steps_remaining: steps },
            );
            index += 1;
        }
    }

    /// The coin at pixel (x, y), if there is one.
    pub fn get_coin_at(&self, x: i32, y: i32) -> (r: Option<Coin>)
        ensures
            r is Some <==> exists|i: int|
                0 <= i < self.coins@.len() && coin_at(#[trigger] self.coins@[i], x as int, y as int),
            r matches Some(c) ==> c == (Coin { x, y }),
    {
        Self::find_at(&self.coins, x, y)
    }

    /// The walker at pixel (x, y), if there is one.
    pub fn get_walker_at(&self, x: i32, y: i32) -> (r: Option<Coin>)
        ensures
            r is Some <==> exists|i: int|
                0 <= i < self.walkers@.len() && coin_at(
                    #[trigger] self.walkers@[i],
                    x as int,
                    y as int,
                ),
            r matches Some(c) ==> c == (Coin { x, y }),
    {
        Self::find_at(&self.walkers, x, y)
    }

    /// The dynamite pickup at pixel (x, y), if there is one.
    pub fn get_dynamite_at(&self, x: i32, y: i32) -> (r: Option<Coin>)
        ensures
            r is Some <==> exists|i: int|
                0 <= i < self.dynamites@.len() && coin_at(
                    #[trigger] self.dynamites@[i],
                    x as int,
                    y as int,
                ),
            r matches Some(c) ==> c == (Coin { x, y }),
    {
        Self::find_at(&self.dynamites, x, y)
    }

    fn find_at(items: &Vec<Coin>, x: i32, y: i32) -> (r: Option<Coin>)
        ensures
            r is Some <==> exists|i: int|
                0 <= i < items@.len() && coin_at(#[trigger] items@[i], x as int, y as int),
            r matches Some(c) ==> c == (Coin { x, y }),
    {
        let mut i: usize = 0;
        while i < items.len()
            invariant
                i <= items@.len(),
                forall|j: int| 0 <= j < i ==> !coin_at(#[trigger] items@[j], x as int, y as int),
            decreases items.len() - i,
        {
            let c = items[i];
            if c.x == x && c.y == y {
                return Some(c);
            }
            i += 1;
        }
        None
    }

    /// The first NPC standing at (x, y).
    pub fn get_npc_at(&self, x: i32, y: i32) -> (r: Option<Npc>)
        ensures
            r is Some <==> exists|i: int|
                0 <= i < self.npcs@.len() && (#[trigger] self.npcs@[i]).x == x && self.npcs@[i].y
                    == y,
            r matches Some(n) ==> exists|i: int|
                0 <= i < self.npcs@.len() && #[trigger] self.npcs@[i] == n && n.x == x && n.y == y
                    && forall|j: int| 0 <= j < i ==> !(self.npcs@[j].x == x && self.npcs@[j].y == y),
    {
        let mut i: usize = 0;
        while i < self.npcs.len()
            invariant
                i <= self.npcs@.len(),
                forall|j: int| 0 <= j < i ==> !((#[trigger] self.npcs@[j]).x == x && self.npcs@[j].y == y),
            decreases self.npcs.len() - i,
        {
            let n = self.npcs[i];
            if n.x == x && n.y == y {
                assert(self.npcs@[i as int] == n);
                return Some(n);
            }
            i += 1;
        }
        None
    }

    /// Remove every coin at the position of `coin`, counting each one down
    /// (never below zero).
    pub fn remove_coin(&mut self, coin: Coin)
        requires
            old(self).wf(),
        ensures
            old(self).coins_removed(*final(self), coin.x as int, coin.y as int),
    {
        let ghost coins0 = self.coins@;
        let mut index: usize = 0;
        while index < COIN_COUNT
            invariant
                index <= COIN_COUNT,
                self.wf(),
                self.same_layout(*old(self)),
                self.npcs@ == old(self).npcs@,
                self.walkers@ == old(self).walkers@,
                self.dynamites@ == old(self).dynamites@,
                coins0 == old(self).coins@,
                self.coin_counter == sat_sub(
                    old(self).coin_counter as int,
                    count_at(coins0, coin.x as int, coin.y as int, index as int) as int,
                ),
                forall|i: int| index <= i < COIN_COUNT ==> #[trigger] self.coins@[i] == coins0[i],
                forall|i: int|
                    0 <= i < index ==> #[trigger] self.coins@[i] == if coin_at(
                        coins0[i],
                        coin.x as int,
                        coin.y as int,
                    ) {
                        Coin { x: -1i32, y: -1i32 }
                    } else {
                        coins0[i]
                    },
            decreases COIN_COUNT - index,
        {
            if self.coins[index].x == coin.x && self.coins[index].y == coin.y {
                self.coins.set(index, Coin { x: -1, y: -1 });
                if self.coin_counter > 0 {
                    self.coin_counter -= 1;
                }
            }
            index += 1;
        }
    }

    /// Move every walker at the position of `walker` to its own random spot.
    pub fn relocate_walker(&mut self, walker: Coin)
        requires
            old(self).wf(),
        ensures
            old(self).walkers_relocated(*final(self), walker.x as int, walker.y as int),
    {
        let mut index: usize = 0;
        while index < WALKER_COUNT
            invariant
                index <= WALKER_COUNT,
                self.wf(),
                self.same_layout(*old(self)),
                self.coins@ == old(self).coins@,
                self.coin_counter == old(self).coin_counter,
                self.npcs@ == old(self).npcs@,
                self.dynamites@ == old(self).dynamites@,
                forall|i: int|
                    index <= i < WALKER_COUNT ==> #[trigger] self.walkers@[i] == old(self).walkers@[i],
                forall|i: int|
                    #![trigger self.walkers@[i]]
                    0 <= i < index ==> if coin_at(old(self).walkers@[i], walker.x as int, walker.y as int) {
                        self.spawn_point((self.walkers@[i].x, self.walkers@[i].y))
                    } else {
                        self.walkers@[i] == old(self).walkers@[i]
                    },
            decreases WALKER_COUNT - index,
        {
            if self.walkers[index].x == walker.x && self.walkers[index].y == walker.y {
                let (new_x, new_y) = self.get_random_coordinates();
                self.walkers.set(index, Coin { x: new_x, y: new_y });
            }
            index += 1;
        }
    }

    /// Move every dynamite at the position of `dynamite` to its own random spot.
    pub fn relocate_dynamite(&mut self, dynamite: Coin)
        requires
            old(self).wf(),
        ensures
            old(self).dynamites_relocated(*final(self), dynamite.x as int, dynamite.y as int),
    {
        let mut index: usize = 0;
        while index < DYNAMITE_COUNT
            invariant
                index <= DYNAMITE_COUNT,
                self.wf(),
                self.same_layout(*old(self)),
                self.coins@ == old(self).coins@,
                self.coin_counter == old(self).coin_counter,
                self.npcs@ == old(self).npcs@,
                self.walkers@ == old(self).walkers@,
                forall|i: int|
                    index <= i < DYNAMITE_COUNT ==> #[trigger] self.dynamites@[i] == old(
                        self,
                    ).dynamites@[i],
                forall|i: int|
                    #![trigger self.dynamites@[i]]
                    0 <= i < index ==> if coin_at(
                        old(self).dynamites@[i],
                        dynamite.x as int,
                        dynamite.y as int,
                    ) {
                        self.spawn_point((self.dynamites@[i].x, self.dynamites@[i].y))
                    } else {
                        self.dynamites@[i] == old(self).dynamites@[i]
                    },
            decreases DYNAMITE_COUNT - index,
        {
            if self.dynamites[index].x == dynamite.x && self.dynamites[index].y == dynamite.y {
                let (new_x, new_y) = self.get_random_coordinates();
                self.dynamites.set(index, Coin { x: new_x, y: new_y });
            }
            index += 1;
        }
    }

    /// Set the tile under pixel (x, y) (pixel coordinates divided by the
    /// tile size, rounding towards zero); positions off the grid are ignored.
    pub fn set_tile_at(&mut self, x: i32, y: i32, tile: u8)
        requires
            old(self).wf(),
        ensures
            final(self).wf(),
            final(self).data@ == old(self).with_tile(old(self).data@, x as int, y as int, tile),
            final(self).width == old(self).width,
            final(self).height == old(self).height,
            final(self).visible_width == old(self).visible_width,
            final(self).visible_height == old(self).visible_height,
            final(self).offset == old(self).offset,
            final(self).tile_width == old(self).tile_width,
            final(self).tile_height == old(self).tile_height,
            final(self).coins@ == old(self).coins@,
            final(self).coin_counter == old(self).coin_counter,
            final(self).npcs@ == old(self).npcs@,
            final(self).walkers@ == old(self).walkers@,
            final(self).dynamites@ == old(self).dynamites@,
    {
        proof {
            self.lemma_pixel_extent();
        }
        let tile_x = x / self.tile_width as i32;
        let tile_y = y / self.tile_height as i32;
        if tile_x < 0 || tile_y < 0 || tile_x >= self.width as i32 || tile_y >= self.height as i32 {
            return;
        }
        proof {
            self.lemma_tile_index(tile_x as int, tile_y as int);
        }
        let tile_index = (tile_y * self.width as i32 + tile_x) as usize;
        self.data.set(tile_index, tile);
    }

    /// Scorch the eight tiles around pixel (x, y).
    pub fn place_dynamite(&mut self, x: i32, y: i32)
        requires
            old(self).wf(),
            i32::MIN + old(self).tile_width <= x <= i32::MAX - old(self).tile_width,
            i32::MIN + old(self).tile_width <= y <= i32::MAX - old(self).tile_width,
        ensures
            final(self).wf(),
            final(self).data@ == old(self).blasted(x as int, y as int),
            final(self).width == old(self).width,
            final(self).height == old(self).height,
            final(self).visible_width == old(self).visible_width,
            final(self).visible_height == old(self).visible_height,
            final(self).offset == old(self).offset,
            final(self).tile_width == old(self).tile_width,
            final(self).tile_height == old(self).tile_height,
            final(self).coins@ == old(self).coins@,
            final(self).coin_counter == old(self).coin_counter,
            final(self).npcs@ == old(self).npcs@,
            final(self).walkers@ == old(self).walkers@,
            final(self).dynamites@ == old(self).dynamites@,
    {
        let tw = self.tile_width as i32;
        self.set_tile_at(x - tw, y - tw, 2);
        self.set_tile_at(x, y - tw, 2);
        self.set_tile_at(x + tw, y - tw, 2);
        self.set_tile_at(x - tw, y, 2);
        self.set_tile_at(x + tw, y, 2);
        self.set_tile_at(x - tw, y + tw, 2);
        self.set_tile_at(x, y + tw, 2);
        self.set_tile_at(x + tw, y + tw, 2);
    }

    fn get_random_vector(&mut self) -> (r: (i32, i32))
        ensures
            wander_vector(r.0, r.1),
            final(self).same_but_rng(*old(self)),
    {
        let mut x = self.get_rand() % 3 - 1;
        let y = self.get_rand() % 3 - 1;
        if x == 0 && y == 0 {
            x = 1;
        }
        (x, y)
    }

    /// Advance every NPC one tile along its vector; an NPC whose next tile
    /// is a wall stays where it is and turns to a random vector instead.
    pub fn move_npcs(&mut self)
        requires
            old(self).wf(),
        ensures
            old(self).npcs_moved(*final(self)),
    {
        proof {
            self.lemma_pixel_extent();
        }
        let mut index: usize = 0;
        while index < NPC_COUNT
            invariant
                index <= NPC_COUNT,
                self.wf(),
                self.same_layout(*old(self)),
                self.coins@ == old(self).coins@,
                self.coin_counter == old(self).coin_counter,
                self.walkers@ == old(self).walkers@,
                self.dynamites@ == old(self).dynamites@,
                self.pixel_width() <= 4096 * 4096,
                self.pixel_height() <= 4096 * 4096,
                forall|i: int| index <= i < NPC_COUNT ==> #[trigger] self.npcs@[i] == old(self).npcs@[i],
                forall|i: int|
                    0 <= i < index ==> {
                        let o = old(self).npcs@[i];
                        let n = #[trigger] self.npcs@[i];
                        let nx = o.x + o.vector_x * old(self).tile_width;
                        let ny = o.y + o.vector_y * old(self).tile_height;
                        if old(self).wall_at(nx, ny) {
                            &&& n.x == o.x
                            &&& n.y == o.y
                            &&& n.steps_remaining == o.steps_remaining
                            &&& wander_vector(n.vector_x, n.vector_y)
                        } else {
                            n == Npc { x: nx as i32, y: ny as i32, ..o }
                        }
                    },
            decreases NPC_COUNT - index,
        {
            let npc = self.npcs[index];
            assert(npc_ok(npc));
            let tw = self.tile_width as i32;
            let th = self.tile_height as i32;
            proof {
                let vx = npc.vector_x as int;
                let vy = npc.vector_y as int;
                assert(-4096 <= vx * tw <= 4096) by (nonlinear_arith)
                    requires
                        -1 <= vx <= 1,
                        1 <= tw <= 4096,
                ;
                assert(-4096 <= vy * th <= 4096) by (nonlinear_arith)
                    requires
                        -1 <= vy <= 1,
                        1 <= th <= 4096,
                ;
            }
            let x = npc.x + npc.vector_x * tw;
            let y = npc.y + npc.vector_y * th;
            if self.check_wall_collision(x, y) {
                let (vx, vy) = self.get_random_vector();
                self.npcs.set(index, Npc { vector_x: vx, vector_y: vy, ..npc });
            } else {
                self.npcs.set(index, Npc { x, y, ..npc });
            }
            index += 1;
        }
    }

    /// Carve a `graph_width` x `graph_height` maze from a seed drawn from the
    /// map's generator into the tile map: each cell (x, y) with x, y >= 1
    /// becomes ground at `carve_index(x, y)`, together with the tile to its
    /// right when it has a passage to the west and the tile below it when it
    /// has a passage to the south.
    pub fn generate_maze(&mut self, graph_width: usize, graph_height: usize)
        requires
            old(self).wf(),
            1 <= graph_width,
            1 <= graph_height,
            graph_width * graph_height <= i32::MAX,
            graph_width >= 2 && graph_height >= 2 ==> 2 * (graph_width - 2) + 2 * (graph_height - 2)
                * old(self).width + old(self).offset + old(self).width < MAZE_CELLS,
        ensures
            final(self).wf(),
            final(self).width == old(self).width,
            final(self).height == old(self).height,
            final(self).visible_width == old(self).visible_width,
            final(self).visible_height == old(self).visible_height,
            final(self).offset == old(self).offset,
            final(self).tile_width == old(self).tile_width,
            final(self).tile_height == old(self).tile_height,
            final(self).coins@ == old(self).coins@,
            final(self).coin_counter == old(self).coin_counter,
            final(self).npcs@ == old(self).npcs@,
            final(self).walkers@ == old(self).walkers@,
            final(self).dynamites@ == old(self).dynamites@,
            final(self).data@.len() == MAZE_CELLS,
            final(self).carved_over(old(self).data@, graph_width as int, graph_height as int),
    {
        proof {
            assert(graph_width as i32 as int == graph_width && graph_height as i32 as int == graph_height)
                by (nonlinear_arith)
                requires
                    1 <= graph_width,
                    1 <= graph_height,
                    graph_width * graph_height <= i32::MAX,
            ;
        }
        let seed: [u8; 32] = rng_seed_bytes(&mut self.rng);
        let mut generator = RbGenerator::new(Some(seed));
        let maze_graph = generator.generate(graph_width as i32, graph_height as i32);
        let ghost edges = maze_graph.passages();
        proof {
            let w = self.width as int;
            let h = self.height as int;
            assert(w <= 4096) by (nonlinear_arith)
                requires
                    1 <= w,
                    1 <= h,
                    w * h <= 4096,
            ;
        }
        Self::carve_tiles(
            &mut self.data,
            self.width as usize,
            self.offset as usize,
            &maze_graph,
            graph_width,
            graph_height,
        );
        proof {
            let gw = graph_width;
            let gh = graph_height;
            assert(spanning_passages(edges, gw as int, gh as int)) by {
                assert forall|a: (i32, i32), b: (i32, i32)| #[trigger] edges.contains((a, b)) implies {
                    &&& in_grid(gw as int, gh as int, a)
                    &&& in_grid(gw as int, gh as int, b)
                    &&& adjacent(a, b)
                    &&& edges.contains((b, a))
                } by {
                    assert(maze_graph.passages().contains((a, b)));
                }
                assert forall|c: (i32, i32)| #[trigger] in_grid(gw as int, gh as int, c) implies connected(
                    edges,
                    (0i32, 0i32),
                    c,
                ) by {
                    assert(maze_graph.inside(c));
                }
            }
        }
    }

    /// Carve the passages of `maze_graph`, a `graph_width` x `graph_height`
    /// maze, into a tile store `width` tiles wide: each cell (x, y) with
    /// x, y >= 1 becomes ground at `carve_index(x, y)`, together with the tile
    /// to its right when it has a passage to the west and the tile below it
    /// when it has a passage to the south. Other tiles keep their values.
    pub fn carve_tiles(
        data: &mut Vec<u8>,
        width: usize,
        offset: usize,
        maze_graph: &RbMaze,
        graph_width: usize,
        graph_height: usize,
    )
        requires
            old(data)@.len() == MAZE_CELLS,
            1 <= graph_width,
            1 <= graph_height,
            graph_width * graph_height <= i32::MAX,
            maze_graph.size == (graph_width as i32, graph_height as i32),
            graph_width >= 2 && graph_height >= 2 ==> 2 * (graph_width - 2) + 2 * (graph_height - 2)
                * width + offset + width < MAZE_CELLS,
            graph_width >= 2 && graph_height >= 2 ==> 2 * (graph_width - 2) + 2 * (graph_height - 2)
                * width + offset + 1 < MAZE_CELLS,
        ensures
            final(data)@.len() == MAZE_CELLS,
            forall|i: int|
                0 <= i < MAZE_CELLS ==> #[trigger] final(data)@[i] == if carved(
                    maze_graph.passages(),
                    graph_width as int,
                    graph_height as int,
                    width as int,
                    offset as int,
                    i,
                ) {
                    0u8
                } else {
                    old(data)@[i]
                },
    {
        let ghost edges = maze_graph.passages();
        let ghost data0 = data@;
        let ghost w = width as int;
        let ghost off = offset as int;
        let gw = graph_width;
        let gh = graph_height;
        let mut y: usize = 1;
        while y < gh
            invariant
                1 <= y <= gh || (gh == 1 && y == 1),
                gw == graph_width,
                gh == graph_height,
                maze_graph.size == (gw as i32, gh as i32),
                maze_graph.passages() == edges,
                w == width,
                off == offset,
                data0 == old(data)@,
                data@.len() == MAZE_CELLS,
                1 <= gw,
                gw * gh <= i32::MAX,
                gw >= 2 && gh >= 2 ==> 2 * (gw - 2) + 2 * (gh - 2) * w + off + w < MAZE_CELLS,
                gw >= 2 && gh >= 2 ==> 2 * (gw - 2) + 2 * (gh - 2) * w + off + 1 < MAZE_CELLS,
                forall|i: int|
                    0 <= i < MAZE_CELLS ==> #[trigger] data@[i] == if carved_before(
                        edges,
                        gw as int,
                        y as int,
                        1,
                        w,
                        off,
                        i,
                    ) {
                        0u8
                    } else {
                        data0[i]
                    },
            decreases gh - y,
        {
            let mut x: usize = 1;
            while x < gw
                invariant
                    1 <= x <= gw || (gw == 1 && x == 1),
                    1 <= y < gh,
                    gw == graph_width,
                    gh == graph_height,
                    maze_graph.size == (gw as i32, gh as i32),
                    maze_graph.passages() == edges,
                    w == width,
                    off == offset,
                    data0 == old(data)@,
                    data@.len() == MAZE_CELLS,
                    gw * gh <= i32::MAX,
                    gw >= 2 && gh >= 2 ==> 2 * (gw - 2) + 2 * (gh - 2) * w + off + w < MAZE_CELLS,
                    gw >= 2 && gh >= 2 ==> 2 * (gw - 2) + 2 * (gh - 2) * w + off + 1 < MAZE_CELLS,
                    forall|i: int|
                        0 <= i < MAZE_CELLS ==> #[trigger] data@[i] == if carved_before(
                            edges,
                            gw as int,
                            y as int,
                            x as int,
                            w,
                            off,
                            i,
                        ) {
                            0u8
                        } else {
                            data0[i]
                        },
                decreases gw - x,
            {
                proof {
                    assert(gw >= 2 && gh >= 2);
                    assert(2 * (x - 1) + 2 * (y - 1) * w <= 2 * (gw - 2) + 2 * (gh - 2) * w) by (nonlinear_arith)
                        requires
                            1 <= x <= gw - 1,
                            1 <= y <= gh - 1,
                            0 <= w,
                    ;
                    assert(gw as i32 as int == gw && gh as i32 as int == gh) by (nonlinear_arith)
                        requires
                            1 <= gw,
                            1 <= gh,
                            gw * gh <= i32::MAX,
                    ;
                }
                let c = Coordinates::new(x as i32, y as i32);
                let field = maze_graph.get_field(&c);
                let field = match field {
                    Some(f) => f,
                    None => {
                        proof {
                            assert(false);
                        }
                        return;
                    },
                };
                let tile_index = (x - 1) * 2 + (y - 1) * 2 * width + offset;
                let ghost t = carve_index(x as int, y as int, w, off);
                assert(tile_index == t);
                let west = field.has_passage(&Direction::West);
                let south = field.has_passage(&Direction::South);
                let ghost before = data@;
                data.set(tile_index, 0);
                if west {
                    data.set(tile_index + 1, 0);
                }
                if south {
                    data.set(tile_index + width, 0);
                }
                proof {
                    let cc = (x as i32, y as i32);
                    assert(c.pair() == cc);
                    assert forall|i: int| 0 <= i < MAZE_CELLS implies #[trigger] data@[i] == if carved_before(
                        edges,
                        gw as int,
                        y as int,
                        x + 1,
                        w,
                        off,
                        i,
                    ) {
                        0u8
                    } else {
                        data0[i]
                    } by {
                        let hit = i == t || (i == t + 1 && edges.contains((cc, step(cc, Direction::West))))
                            || (i == t + w && edges.contains((cc, step(cc, Direction::South))));
                        if hit {
                            assert(carved_before(edges, gw as int, y as int, x + 1, w, off, i)) by {
                                assert(1 <= x < gw && 1 <= y && (y < y || (y == y && x < x + 1)));
                                assert(carve_index(x as int, y as int, w, off) == t);
                            }
                        } else {
                            if carved_before(edges, gw as int, y as int, x + 1, w, off, i) {
                                let (px, py) = choose|px: int, py: int|
                                    #![trigger carve_index(px, py, w, off)]
                                    1 <= px < gw && 1 <= py && (py < y || (py == y && px < x + 1))
                                        && {
                                        let tt = carve_index(px, py, w, off);
                                        let pc = (px as i32, py as i32);
                                        ||| i == tt
                                        ||| i == tt + 1 && edges.contains((pc, step(pc, Direction::West)))
                                        ||| i == tt + w && edges.contains((pc, step(pc, Direction::South)))
                                    };
                                if px == x && py == y {
                                } else {
                                    assert(carved_before(edges, gw as int, y as int, x as int, w, off, i));
                                }
                            }
                        }
                    }
                }
                x += 1;
            }
            proof {
                assert forall|i: int| 0 <= i < MAZE_CELLS implies #[trigger] data@[i] == if carved_before(
                    edges,
                    gw as int,
                    y + 1,
                    1,
                    w,
                    off,
                    i,
                ) {
                    0u8
                } else {
                    data0[i]
                } by {
                    if carved_before(edges, gw as int, y + 1, 1, w, off, i) {
                        let (px, py) = choose|px: int, py: int|
                            #![trigger carve_index(px, py, w, off)]
                            1 <= px < gw && 1 <= py && (py < y + 1 || (py == y + 1 && px < 1)) && {
                                let tt = carve_index(px, py, w, off);
                                let pc = (px as i32, py as i32);
                                ||| i == tt
                                ||| i == tt + 1 && edges.contains((pc, step(pc, Direction::West)))
                                ||| i == tt + w && edges.contains((pc, step(pc, Direction::South)))
                            };
                        assert(carved_before(edges, gw as int, y as int, x as int, w, off, i));
                    }
                    if carved_before(edges, gw as int, y as int, x as int, w, off, i) {
                        let (px, py) = choose|px: int, py: int|
                            #![trigger carve_index(px, py, w, off)]
                            1 <= px < gw && 1 <= py && (py < y || (py == y && px < x)) && {
                                let tt = carve_index(px, py, w, off);
                                let pc = (px as i32, py as i32);
                                ||| i == tt
                                ||| i == tt + 1 && edges.contains((pc, step(pc, Direction::West)))
                                ||| i == tt + w && edges.contains((pc, step(pc, Direction::South)))
                            };
                        assert(carved_before(edges, gw as int, y + 1, 1, w, off, i));
                    }
                }
            }
            y += 1;
        }
        proof {
            assert forall|i: int| 0 <= i < MAZE_CELLS implies #[trigger] data@[i] == if carved(
                edges,
                gw as int,
                gh as int,
                w,
                off,
                i,
            ) {
                0u8
            } else {
                data0[i]
            } by {
                if carved(edges, gw as int, gh as int, w, off, i) {
                    let (px, py) = choose|px: int, py: int|
                        #![trigger carve_index(px, py, w, off)]
                        1 <= px < gw && 1 <= py < gh && {
                            let tt = carve_index(px, py, w, off);
                            let pc = (px as i32, py as i32);
                            ||| i == tt
                            ||| i == tt + 1 && edges.contains((pc, step(pc, Direction::West)))
                            ||| i == tt + w && edges.contains((pc, step(pc, Direction::South)))
                        };
                    assert(carved_before(edges, gw as int, y as int, 1, w, off, i));
                }
                if carved_before(edges, gw as int, y as int, 1, w, off, i) {
                    let (px, py) = choose|px: int, py: int|
                        #![trigger carve_index(px, py, w, off)]
                        1 <= px < gw && 1 <= py && (py < y || (py == y && px < 1)) && {
                            let tt = carve_index(px, py, w, off);
                            let pc = (px as i32, py as i32);
                            ||| i == tt
                            ||| i == tt + 1 && edges.contains((pc, step(pc, Direction::West)))
                            ||| i == tt + w && edges.contains((pc, step(pc, Direction::South)))
                        };
                    assert(carved(edges, gw as int, gh as int, w, off, i));
                }
            }
        }
    }

    /// The playable area in pixels: (left, bottom, right, top).
    pub fn playable_bounds(&self) -> (r: (i32, i32, i32, i32))
        requires
            self.wf(),
        ensures
            r == (0i32, 0i32, self.pixel_width() as i32, self.pixel_height() as i32),
            r.2 == self.pixel_width(),
            r.3 == self.pixel_height(),
    {
        proof {
            self.lemma_pixel_extent();
        }
        let margin = Self::MARGIN;
        let left = margin * self.tile_width as i32;
        let bottom = margin * self.tile_height as i32;
        let right = left + self.width as i32 * self.tile_width as i32;
        let top = bottom + self.height as i32 * self.tile_height as i32;
        (left, bottom, right, top)
    }
}

} // verus!
