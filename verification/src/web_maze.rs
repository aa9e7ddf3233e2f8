//! The tile map of the browser build: the same 64 x 64 tile store as
//! [`crate::maze`], with coins and NPCs only, whose randomness comes from the
//! system's random source (getrandom) rather than from a seeded generator.
use vstd::prelude::*;

use crate::maze::{carved, spanning_passages, MAZE_CELLS};
use crate::recursive_backtracking::{adjacent, connected, in_grid, Generator, RbGenerator};

verus! {

/// The system's random source could not be read.
#[derive(Clone, Copy, Debug, PartialEq, Eq, Structural)]
pub struct EntropyError;

/// `getrandom::getrandom`: fills `dest` from the system's random source, its
/// error mapped to [`EntropyError`]. The bytes written, and whether the
/// source fails, are not stated; the slice keeps its length, and on an empty
/// slice the call succeeds without asking the system.
#[verifier::external_body]
fn fill_random(dest: &mut [u8]) -> (r: Result<(), EntropyError>)
    ensures
        final(dest)@.len() == old(dest)@.len(),
        old(dest)@.len() == 0 ==> r is Ok,
{
    getrandom::getrandom(dest).map_err(|_| EntropyError)
}

/// The number of coins on the map.
pub const WEB_COIN_COUNT: usize = 100;

/// The number of NPCs on the map.
pub const WEB_NPC_COUNT: usize = 5;

#[derive(Clone, Copy, Debug, PartialEq, Eq, Structural)]
pub struct Coin {
    pub x: i32,
    pub y: i32,
}

impl Coin {
    pub fn new(x: i32, y: i32) -> (r: Coin)
        ensures
            r.x == x,
            r.y == y,
    {
        Coin { x, y }
    }
}

#[derive(Clone, Copy, Debug, PartialEq, Eq, Structural)]
pub struct Npc {
    pub x: i32,
    pub y: i32,
    pub vector_x: i32,
    pub vector_y: i32,
}

pub struct Maze {
    pub width: u32,
    pub height: u32,
    pub visible_width: u32,
    pub visible_height: u32,
    /// `MAZE_CELLS` tiles, row by row: 0 ground, 1 wall.
    pub data: Vec<u8>,
    pub coins: Vec<Coin>,
    pub npcs: Vec<Npc>,
    /// The index of the first carved tile (a border row and column stay wall).
    pub offset: u32,
    pub tile_width: u32,
    pub tile_height: u32,
}

/// The pixel coordinate at which a random byte `r` places an object: one of
/// the 63 tiles 1..=63, times the 16-pixel tile size.
pub open spec fn spawn_coordinate(r: int) -> int {
    (r % 63 + 1) * 16
}

/// The coordinates that [`spawn_coordinate`] gives for some byte: the
/// multiples of 16 from 16 to 1008.
pub open spec fn on_spawn_grid(v: int) -> bool {
    16 <= v <= 1008 && v % 16 == 0
}

/// Place a random byte `r` on the spawn grid.
pub fn spawn_coordinate_of(r: i32) -> (v: i32)
    requires
        0 <= r,
    ensures
        v == spawn_coordinate(r as int),
        on_spawn_grid(v as int),
{
    (r % 63 + 1) * 16
}

/// The first `k` coins of `after` are on the spawn grid, the others as in
/// `before`.
pub open spec fn coins_placed_upto(before: Seq<Coin>, after: Seq<Coin>, k: int) -> bool {
    &&& forall|i: int|
        0 <= i < k ==> on_spawn_grid(#[trigger] after[i].x as int) && on_spawn_grid(after[i].y as int)
    &&& forall|i: int| k <= i < after.len() ==> #[trigger] after[i] == before[i]
}

/// The first `k` NPCs of `after` are on the spawn grid heading down and to
/// the right, the others as in `before`.
pub open spec fn npcs_placed_upto(before: Seq<Npc>, after: Seq<Npc>, k: int) -> bool {
    &&& forall|i: int|
        0 <= i < k ==> {
            let n = #[trigger] after[i];
            &&& on_spawn_grid(n.x as int)
            &&& on_spawn_grid(n.y as int)
            &&& n.vector_x == 1
            &&& n.vector_y == 1
        }
    &&& forall|i: int| k <= i < after.len() ==> #[trigger] after[i] == before[i]
}

impl Maze {
    pub open spec fn wf(self) -> bool {
        &&& self.data@.len() == MAZE_CELLS
        &&& self.coins@.len() == WEB_COIN_COUNT
        &&& self.npcs@.len() == WEB_NPC_COUNT
    }

    /// Everything but the coins and NPCs is the same.
    pub open spec fn same_map(self, other: Maze) -> bool {
        &&& self.width == other.width
        &&& self.height == other.height
        &&& self.visible_width == other.visible_width
        &&& self.visible_height == other.visible_height
        &&& self.data@ == other.data@
        &&& self.offset == other.offset
        &&& self.tile_width == other.tile_width
        &&& self.tile_height == other.tile_height
    }

    /// A `width` x `height` map that is all wall, with a 21 x 16 tile view of
    /// 16-pixel tiles, carving offset `width + 1`, and every coin and NPC
    /// parked at (-1, -1) without a vector.
    pub fn new(width: u32, height: u32) -> (r: Maze)
        requires
            width < u32::MAX,
        ensures
            r.wf(),
            r.width == width,
            r.height == height,
            r.visible_width == 21,
            r.visible_height == 16,
            r.offset == width + 1,
            r.tile_width == 16,
            r.tile_height == 16,
            forall|i: int| 0 <= i < MAZE_CELLS ==> #[trigger] r.data@[i] == 1u8,
            forall|i: int| 0 <= i < WEB_COIN_COUNT ==> #[trigger] r.coins@[i] == (Coin { x: -1i32, y: -1i32 }),
            forall|i: int|
                0 <= i < WEB_NPC_COUNT ==> #[trigger] r.npcs@[i] == (Npc { x: -1i32, y: -1i32, vector_x: 0i32, vector_y: 0i32 }),
    {
        let mut data: Vec<u8> = Vec::new();
        let mut k: usize = 0;
        while k < MAZE_CELLS
            invariant
                k <= MAZE_CELLS,
                data@.len() == k,
                forall|i: int| 0 <= i < k ==> #[trigger] data@[i] == 1u8,
            decreases MAZE_CELLS - k,
        {
            data.push(1);
            k += 1;
        }
        let mut coins: Vec<Coin> = Vec::new();
        let mut k: usize = 0;
        while k < WEB_COIN_COUNT
            invariant
                k <= WEB_COIN_COUNT,
                coins@.len() == k,
                forall|i: int| 0 <= i < k ==> #[trigger] coins@[i] == (Coin { x: -1i32, y: -1i32 }),
            decreases WEB_COIN_COUNT - k,
        {
            coins.push(Coin { x: -1, y: -1 });
            k += 1;
        }
        let mut npcs: Vec<Npc> = Vec::new();
        let mut k: usize = 0;
        while k < WEB_NPC_COUNT
            invariant
                k <= WEB_NPC_COUNT,
                npcs@.len() == k,
                forall|i: int| 0 <= i < k ==> #[trigger] npcs@[i] == (Npc { x: -1i32, y: -1i32, vector_x: 0i32, vector_y: 0i32 }),
            decreases WEB_NPC_COUNT - k,
        {
            npcs.push(Npc { x: -1, y: -1, vector_x: 0, vector_y: 0 });
            k += 1;
        }
        Maze {
            width,
            height,
            visible_width: 21,
            visible_height: 16,
            data,
            coins,
            npcs,
            offset: width + 1,
            tile_width: 16,
            tile_height: 16,
        }
    }

    /// One random byte, read from the system's random source.
    pub fn get_rand(&self) -> (r: Result<i32, EntropyError>)
        ensures
            r matches Ok(v) ==> 0 <= v < 256,
    {
        let mut seed_buffer = [0u8; 2];
        match fill_random(&mut seed_buffer) {
            Ok(()) => Ok(seed_buffer[0] as i32),
            Err(e) => Err(e),
        }
    }

    /// Scatter the coins in order: each one on a random tile of the spawn
    /// grid. On an error of the random source the coins placed so far stay
    /// placed and the others are as they were.
    pub fn generate_coins(&mut self) -> (r: Result<(), EntropyError>)
        requires
            old(self).wf(),
        ensures
            final(self).wf(),
            final(self).same_map(*old(self)),
            final(self).npcs@ == old(self).npcs@,
            r is Ok ==> forall|i: int|
                0 <= i < WEB_COIN_COUNT ==> on_spawn_grid(#[trigger] final(self).coins@[i].x as int)
                    && on_spawn_grid(final(self).coins@[i].y as int),
            r is Err ==> exists|k: int|
                0 <= k < WEB_COIN_COUNT && #[trigger] coins_placed_upto(old(self).coins@, final(self).coins@, k),
    {
        let mut index: usize = 0;
        while index < WEB_COIN_COUNT
            invariant
                index <= WEB_COIN_COUNT,
                self.wf(),
                self.same_map(*old(self)),
                self.npcs@ == old(self).npcs@,
                forall|i: int|
                    0 <= i < index ==> on_spawn_grid(#[trigger] self.coins@[i].x as int) && on_spawn_grid(
                        self.coins@[i].y as int,
                    ),
                forall|i: int| index <= i < WEB_COIN_COUNT ==> #[trigger] self.coins@[i] == old(self).coins@[i],
            decreases WEB_COIN_COUNT - index,
        {
            let rx = match self.get_rand() {
                Ok(v) => v,
                Err(e) => {
                    assert(coins_placed_upto(old(self).coins@, self.coins@, index as int));
                    return Err(e);
                },
            };
            let x = spawn_coordinate_of(rx);
            let ry = match self.get_rand() {
                Ok(v) => v,
                Err(e) => {
                    assert(coins_placed_upto(old(self).coins@, self.coins@, index as int));
                    return Err(e);
                },
            };
            let y = spawn_coordinate_of(ry);
            self.coins.set(index, Coin { x, y });
            index += 1;
        }
        assert(index == WEB_COIN_COUNT);
        assert forall|i: int| 0 <= i < WEB_COIN_COUNT implies on_spawn_grid(#[trigger] self.coins@[i].x as int)
            && on_spawn_grid(self.coins@[i].y as int) by {
            assert(i < index);
        }
        Ok(())
    }

    /// Scatter the NPCs: each one on a random tile of the spawn grid, heading
    /// down and to the right, in order. On an error of the random source the
    /// NPCs placed so far stay placed and the others are as they were.
    pub fn generate_npcs(&mut self) -> (r: Result<(), EntropyError>)
        requires
            old(self).wf(),
        ensures
            final(self).wf(),
            final(self).same_map(*old(self)),
            final(self).coins@ == old(self).coins@,
            r is Ok ==> forall|i: int|
                0 <= i < WEB_NPC_COUNT ==> {
                    let n = #[trigger] final(self).npcs@[i];
                    &&& on_spawn_grid(n.x as int)
                    &&& on_spawn_grid(n.y as int)
                    &&& n.vector_x == 1
                    &&& n.vector_y == 1
                },
            r is Err ==> exists|k: int|
                0 <= k < WEB_NPC_COUNT && #[trigger] npcs_placed_upto(old(self).npcs@, final(self).npcs@, k),
    {
        let mut index: usize = 0;
        while index < WEB_NPC_COUNT
            invariant
                index <= WEB_NPC_COUNT,
                self.wf(),
                self.same_map(*old(self)),
                self.coins@ == old(self).coins@,
                forall|i: int|
                    0 <= i < index ==> {
                        let n = #[trigger] self.npcs@[i];
                        &&& on_spawn_grid(n.x as int)
                        &&& on_spawn_grid(n.y as int)
                        &&& n.vector_x == 1
                        &&& n.vector_y == 1
                    },
                forall|i: int| index <= i < WEB_NPC_COUNT ==> #[trigger] self.npcs@[i] == old(self).npcs@[i],
            decreases WEB_NPC_COUNT - index,
        {
            let rx = match self.get_rand() {
                Ok(v) => v,
                Err(e) => {
                    assert(npcs_placed_upto(old(self).npcs@, self.npcs@, index as int));
                    return Err(e);
                },
            };
            let x = spawn_coordinate_of(rx);
            let ry = match self.get_rand() {
                Ok(v) => v,
                Err(e) => {
                    assert(npcs_placed_upto(old(self).npcs@, self.npcs@, index as int));
                    return Err(e);
                },
            };
            let y = spawn_coordinate_of(ry);
            self.npcs.set(index, Npc { x, y, vector_x: 1, vector_y: 1 });
            index += 1;
        }
        Ok(())
    }

    /// Carve a `graph_width` x `graph_height` maze, generated from a seed
    /// read from the system's random source, into the tile map (see
    /// [`crate::maze::Maze::carve_tiles`]). When the source fails, nothing
    /// changes.
    pub fn generate_maze(&mut self, graph_width: usize, graph_height: usize) -> (r: Result<(), EntropyError>)
        requires
            old(self).wf(),
            1 <= graph_width,
            1 <= graph_height,
            graph_width * graph_height <= i32::MAX,
            graph_width >= 2 && graph_height >= 2 ==> 2 * (graph_width - 2) + 2 * (graph_height - 2)
                * old(self).width + old(self).offset + old(self).width < MAZE_CELLS,
            graph_width >= 2 && graph_height >= 2 ==> 2 * (graph_width - 2) + 2 * (graph_height - 2)
                * old(self).width + old(self).offset + 1 < MAZE_CELLS,
        ensures
            final(self).wf(),
            final(self).width == old(self).width,
            final(self).height == old(self).height,
            final(self).visible_width == old(self).visible_width,
            final(self).visible_height == old(self).visible_height,
            final(self).offset == old(self).offset,
            final(self).tile_width == old(self).tile_width,
            final(self).tile_height == old(self).tile_height,
            final(self).coins@ == old(self).coins@,
            final(self).npcs@ == old(self).npcs@,
            r is Err ==> final(self).data@ == old(self).data@,
            r is Ok ==> exists|edges: Set<((i32, i32), (i32, i32))>|
                #[trigger] spanning_passages(edges, graph_width as int, graph_height as int)
                    && forall|i: int|
                    0 <= i < MAZE_CELLS ==> #[trigger] final(self).data@[i] == if carved(
                        edges,
                        graph_width as int,
                        graph_height as int,
                        old(self).width as int,
                        old(self).offset as int,
                        i,
                    ) {
                        0u8
                    } else {
                        old(self).data@[i]
                    },
    {
        proof {
            assert(graph_width as i32 as int == graph_width && graph_height as i32 as int == graph_height)
                by (nonlinear_arith)
                requires
                    1 <= graph_width,
                    1 <= graph_height,
                    graph_width * graph_height <= i32::MAX,
            ;
        }
        let mut seed_buffer = [0u8; 32];
        match fill_random(&mut seed_buffer) {
            Ok(()) => {},
            Err(e) => {
                return Err(e);
            },
        }
        let mut generator = RbGenerator::new(Some(seed_buffer));
        let maze_graph = generator.generate(graph_width as i32, graph_height as i32);
        let ghost edges = maze_graph.passages();
        crate::maze::Maze::carve_tiles(
            &mut self.data,
            self.width as usize,
            self.offset as usize,
            &maze_graph,
            graph_width,
            graph_height,
        );
        proof {
            let gw = graph_width;
            let gh = graph_height;
            assert(spanning_passages(edges, gw as int, gh as int)) by {
                assert forall|a: (i32, i32), b: (i32, i32)| #[trigger] edges.contains((a, b)) implies {
                    &&& in_grid(gw as int, gh as int, a)
                    &&& in_grid(gw as int, gh as int, b)
                    &&& adjacent(a, b)
                    &&& edges.contains((b, a))
                } by {
                    assert(maze_graph.passages().contains((a, b)));
                }
                assert forall|c: (i32, i32)| #[trigger] in_grid(gw as int, gh as int, c) implies connected(
                    edges,
                    (0i32, 0i32),
                    c,
                ) by {
                    assert(maze_graph.inside(c));
                }
            }
        }
        Ok(())
    }
}

} // verus!
