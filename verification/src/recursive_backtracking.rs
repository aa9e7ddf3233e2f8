//! Recursive-backtracking maze generation.
//!
//! Starting at cell (0, 0), the generator visits the four neighbours of the
//! current cell in random order; each neighbour inside the grid that has not
//! been reached yet is joined to the current cell by a passage and explored
//! in turn. When a cell has no unreached neighbours left, the generator backs
//! up. Every cell of the grid ends up reachable from the start.
use rand_chacha::ChaCha20Rng;
use vstd::arithmetic::div_mod::lemma_fundamental_div_mod_converse;
use vstd::prelude::*;

use crate::graph::{
    graph_add_edge, graph_add_node, graph_contains_edge, graph_edges, graph_neighbor_count,
    graph_nodes, graph_with_capacity, CellGraph,
};
use crate::rng::{rng_from_entropy, rng_from_seed, rng_shuffle4};

verus! {

/// A direction from a cell to one of its four neighbours.
#[derive(Debug, Copy, Clone, Eq, PartialEq, Structural)]
pub enum Direction {
    /// *North* or *up* direction
    North,
    /// *East* or *right* direction
    East,
    /// *South* or *down* direction
    South,
    /// *West* or *left* direction
    West,
}

/// The direction that points back.
pub open spec fn direction_opposite(d: Direction) -> Direction {
    match d {
        Direction::North => Direction::South,
        Direction::East => Direction::West,
        Direction::South => Direction::North,
        Direction::West => Direction::East,
    }
}

/// The four directions in the order North, East, South, West.
pub open spec fn all_directions() -> Seq<Direction> {
    seq![Direction::North, Direction::East, Direction::South, Direction::West]
}

/// The cell one step from `c` in direction `d` (x grows to the east, y to the south).
pub open spec fn step(c: (i32, i32), d: Direction) -> (i32, i32) {
    match d {
        Direction::East => ((c.0 + 1) as i32, c.1),
        Direction::West => ((c.0 - 1) as i32, c.1),
        Direction::North => (c.0, (c.1 - 1) as i32),
        Direction::South => (c.0, (c.1 + 1) as i32),
    }
}

/// Whether `a` and `b` are orthogonal neighbours.
pub open spec fn adjacent(a: (i32, i32), b: (i32, i32)) -> bool {
    ||| a.0 == b.0 && (b.1 == a.1 + 1 || b.1 == a.1 - 1)
    ||| a.1 == b.1 && (b.0 == a.0 + 1 || b.0 == a.0 - 1)
}

/// Whether `c` lies in the `w` x `h` grid that starts at (0, 0).
pub open spec fn in_grid(w: int, h: int, c: (i32, i32)) -> bool {
    0 <= c.0 < w && 0 <= c.1 < h
}

/// `p` is a walk along `edges`.
pub open spec fn is_path(edges: Set<((i32, i32), (i32, i32))>, p: Seq<(i32, i32)>) -> bool {
    &&& p.len() >= 1
    &&& forall|i: int| 0 <= i < p.len() - 1 ==> #[trigger] edges.contains((p[i], p[i + 1]))
}

/// Some walk along `edges` leads from `a` to `b`.
pub open spec fn connected(edges: Set<((i32, i32), (i32, i32))>, a: (i32, i32), b: (i32, i32)) -> bool {
    exists|p: Seq<(i32, i32)>| #[trigger] is_path(edges, p) && p[0] == a && p.last() == b
}

/// `p` is a cycle along `edges`: at least three distinct cells, each joined
/// to the next and the last joined to the first.
pub open spec fn is_cycle(edges: Set<((i32, i32), (i32, i32))>, p: Seq<(i32, i32)>) -> bool {
    &&& p.len() >= 3
    &&& is_path(edges, p)
    &&& edges.contains((p.last(), p[0]))
    &&& forall|i: int, j: int| 0 <= i < j < p.len() ==> p[i] != p[j]
}

/// No cycle runs along `edges`.
pub open spec fn acyclic(edges: Set<((i32, i32), (i32, i32))>) -> bool {
    forall|p: Seq<(i32, i32)>| !#[trigger] is_cycle(edges, p)
}

/// The cells of the `w` x `h` grid.
pub open spec fn grid_cells(w: int, h: int) -> Set<(i32, i32)> {
    Set::new(|c: (i32, i32)| in_grid(w, h, c))
}

impl Direction {
    /// Return the opposite direction of self
    pub fn opposite(&self) -> (r: Direction)
        ensures
            r == direction_opposite(*self),
    {
        match self {
            Direction::North => Direction::South,
            Direction::East => Direction::West,
            Direction::South => Direction::North,
            Direction::West => Direction::East,
        }
    }

    /// Generate a list of all directions but in random order
    pub fn gen_random_order(rng: &mut ChaCha20Rng) -> (r: [Direction; 4])
        ensures
            r@.to_multiset() == all_directions().to_multiset(),
    {
        let mut directions = Self::all();
        rng_shuffle4(rng, &mut directions);
        directions
    }

    /// Return all directions as array
    pub fn all() -> (r: [Direction; 4])
        ensures
            r@ == all_directions(),
    {
        let r = [Direction::North, Direction::East, Direction::South, Direction::West];
        assert(r@ =~= all_directions());
        r
    }
}

/// Cell coordinates in a maze.
#[derive(Debug, Copy, Clone, Default, Ord, PartialOrd, Eq, PartialEq, Structural, Hash)]
pub struct Coordinates {
    /// X component
    pub x: i32,
    /// Y component
    pub y: i32,
}

impl Coordinates {
    /// The coordinates as an `(x, y)` pair.
    pub open spec fn pair(self) -> (i32, i32) {
        (self.x, self.y)
    }

    /// Create a new instance from the specified coordinate components
    pub fn new(x: i32, y: i32) -> (r: Self)
        ensures
            r.x == x,
            r.y == y,
    {
        Coordinates { x, y }
    }

    /// Returns the next neighboring coordinates in a specific direction
    pub fn next(&self, direction: &Direction) -> (r: Self)
        requires
            *direction is East ==> self.x < i32::MAX,
            *direction is West ==> self.x > i32::MIN,
            *direction is North ==> self.y > i32::MIN,
            *direction is South ==> self.y < i32::MAX,
        ensures
            r.pair() == step(self.pair(), *direction),
    {
        Self {
            x: self.x + match direction {
                Direction::East => 1,
                Direction::West => -1,
                _ => 0,
            },
            y: self.y + match direction {
                Direction::North => -1,
                Direction::South => 1,
                _ => 0,
            },
        }
    }

    /// The coordinates as an `(x, y)` pair.
    pub fn to_pair(&self) -> (r: (i32, i32))
        ensures
            r == self.pair(),
    {
        (self.x, self.y)
    }

    /// Coordinates from an `(x, y)` pair.
    pub fn from_pair(source: (i32, i32)) -> (r: Self)
        ensures
            r.pair() == source,
    {
        Self { x: source.0, y: source.1 }
    }
}

impl From<Coordinates> for (i32, i32) {
    fn from(c: Coordinates) -> (r: (i32, i32)) {
        (c.x, c.y)
    }
}

impl vstd::std_specs::convert::FromSpecImpl<Coordinates> for (i32, i32) {
    open spec fn obeys_from_spec() -> bool {
        true
    }

    open spec fn from_spec(c: Coordinates) -> (i32, i32) {
        (c.x, c.y)
    }
}

impl From<(i32, i32)> for Coordinates {
    fn from(source: (i32, i32)) -> (r: Coordinates) {
        Coordinates { x: source.0, y: source.1 }
    }
}

impl vstd::std_specs::convert::FromSpecImpl<(i32, i32)> for Coordinates {
    open spec fn obeys_from_spec() -> bool {
        true
    }

    open spec fn from_spec(source: (i32, i32)) -> Coordinates {
        Coordinates { x: source.0, y: source.1 }
    }
}

/// A maze: a rectangular grid of cells joined by passages.
pub struct Maze {
    /// The passages between cells
    pub graph: CellGraph,
    /// At which coordinates the start field lies
    pub start: Coordinates,
    /// At which coordinates the goal field lies
    pub goal: Coordinates,
    /// How large the maze is in (width, height) format
    pub size: (i32, i32),
}

/// Defines the possible types of fields that exist in a maze
#[derive(Debug, Copy, Clone)]
pub enum FieldType {
    /// Start field from which a potential user should start exploring
    Start,
    /// Goal field which a potential user tries to reach
    Goal,
    /// Standard field with no special meaning
    Normal,
}

/// One cell of a maze, with the directions in which passages leave it.
#[derive(Clone)]
pub struct Field {
    passages: Vec<Direction>,
    /// Role which this field position serves in the maze
    pub field_type: FieldType,
    /// Where this field is located in the maze
    pub coordinates: Coordinates,
}

impl Field {
    /// Whether a passage leaves this field in direction `d`.
    pub closed spec fn passage_to(self, d: Direction) -> bool {
        self.passages@.contains(d)
    }

    /// The role of this field.
    pub closed spec fn kind(self) -> FieldType {
        self.field_type
    }

    /// Where this field lies.
    pub closed spec fn location(self) -> Coordinates {
        self.coordinates
    }

    pub(crate) fn new(field_type: FieldType, coordinates: Coordinates, passages: Vec<Direction>) -> (r: Self)
        ensures
            r.kind() == field_type,
            r.location() == coordinates,
            forall|d: Direction| #[trigger] r.passage_to(d) <==> passages@.contains(d),
    {
        Field { passages, field_type, coordinates }
    }

    /// Whether or not a passage (a way) exists from this field to another one which lies in the
    /// specified direction.
    pub fn has_passage(&self, direction: &Direction) -> (r: bool)
        ensures
            r == self.passage_to(*direction),
    {
        let mut i: usize = 0;
        while i < self.passages.len()
            invariant
                i <= self.passages.len(),
                forall|j: int| 0 <= j < i ==> self.passages@[j] != *direction,
            decreases self.passages.len() - i,
        {
            if self.passages[i] == *direction {
                return true;
            }
            i += 1;
        }
        false
    }
}

/// Cell `i` of a grid `w` cells wide, counted row by row.
pub open spec fn grid_cell(w: int, i: int) -> (i32, i32) {
    ((i % w) as i32, (i / w) as i32)
}

/// How many of the first `k` cells of a grid `w` cells wide are missing from `nodes`.
pub open spec fn count_unvisited(nodes: Set<(i32, i32)>, w: int, k: int) -> nat
    decreases k,
{
    if k <= 0 {
        0
    } else {
        count_unvisited(nodes, w, k - 1) + (if nodes.contains(grid_cell(w, k - 1)) {
            0nat
        } else {
            1nat
        })
    }
}

/// Some edge of `edges` leaves `n`.
pub open spec fn has_edge(edges: Set<((i32, i32), (i32, i32))>, n: (i32, i32)) -> bool {
    exists|b: (i32, i32)| #[trigger] edges.contains((n, b))
}

/// Every grid neighbour of `n` is among `nodes`.
pub open spec fn closed_cell(nodes: Set<(i32, i32)>, w: int, h: int, n: (i32, i32)) -> bool {
    forall|d: Direction| in_grid(w, h, #[trigger] step(n, d)) ==> nodes.contains(step(n, d))
}

/// A depth for every node such that each edge joins depths one apart and
/// every node has at most one neighbour above it: the edges hang from a
/// rooted tree.
pub open spec fn depth_witness(
    edges: Set<((i32, i32), (i32, i32))>,
    nodes: Set<(i32, i32)>,
    d: Map<(i32, i32), nat>,
) -> bool {
    &&& forall|n: (i32, i32)| #[trigger] nodes.contains(n) ==> d.dom().contains(n)
    &&& forall|a: (i32, i32), b: (i32, i32)| #[trigger] edges.contains((a, b)) ==> d[a] + 1 == d[b] || d[b]
        + 1 == d[a]
    &&& forall|n: (i32, i32), a: (i32, i32), b: (i32, i32)|
        #![trigger edges.contains((n, a)), edges.contains((n, b))]
        edges.contains((n, a)) && edges.contains((n, b)) && d[a] < d[n] && d[b] < d[n] ==> a == b
}

/// What holds of the graph at every point of the carving.
pub open spec fn carve_inv(
    edges: Set<((i32, i32), (i32, i32))>,
    nodes: Set<(i32, i32)>,
    s: (i32, i32),
    w: int,
    h: int,
) -> bool {
    &&& nodes.contains(s)
    &&& forall|n: (i32, i32)| #[trigger] nodes.contains(n) ==> in_grid(w, h, n)
    &&& forall|n: (i32, i32)| #[trigger] nodes.contains(n) ==> n == s || has_edge(edges, n)
    &&& forall|a: (i32, i32), b: (i32, i32)| #[trigger] edges.contains((a, b)) ==> {
        &&& nodes.contains(a)
        &&& nodes.contains(b)
        &&& adjacent(a, b)
        &&& edges.contains((b, a))
    }
    &&& forall|n: (i32, i32)| #[trigger] nodes.contains(n) ==> connected(edges, s, n)
    &&& edges.finite()
    &&& nodes.finite()
    &&& edges.len() + 2 == 2 * nodes.len()
    &&& exists|d: Map<(i32, i32), nat>| depth_witness(edges, nodes, d)
}

impl Maze {
    /// The passages of the maze, each one held in both orientations.
    pub closed spec fn passages(self) -> Set<((i32, i32), (i32, i32))> {
        graph_edges(self.graph)
    }

    /// The cells that the graph holds.
    pub closed spec fn cells(self) -> Set<(i32, i32)> {
        graph_nodes(self.graph)
    }

    /// Whether `c` lies inside the maze.
    pub open spec fn inside(self, c: (i32, i32)) -> bool {
        in_grid(self.size.0 as int, self.size.1 as int, c)
    }

    /// What generation guarantees: passages join neighbouring cells of the
    /// grid and run both ways, every cell is reachable from the start, and
    /// the goal is a cell of the grid.
    pub open spec fn spans_grid(self) -> bool {
        &&& forall|a: (i32, i32), b: (i32, i32)| #[trigger] self.passages().contains((a, b)) ==> {
            &&& self.inside(a)
            &&& self.inside(b)
            &&& adjacent(a, b)
            &&& self.passages().contains((b, a))
        }
        &&& forall|c: (i32, i32)| #[trigger] self.inside(c) ==> connected(self.passages(), self.start.pair(), c)
        &&& self.inside(self.goal.pair())
    }

    /// A perfect maze: the passages span the grid, no cycle runs along
    /// them, and there are exactly `width * height - 1` of them (the set
    /// holds each passage in both orientations, so it has twice as many
    /// pairs). Between any two cells there is then exactly one way.
    pub open spec fn spanning_tree(self) -> bool {
        &&& self.spans_grid()
        &&& acyclic(self.passages())
        &&& self.passages().finite()
        &&& self.passages().len() == 2 * (self.size.0 * self.size.1 - 1)
    }

    pub(crate) fn new(width: i32, height: i32, start: Coordinates, goal: Coordinates) -> (r: Self)
        requires
            width > 0,
            height > 0,
            width * height <= i32::MAX,
        ensures
            r.size == (width, height),
            r.start == start,
            r.goal == goal,
            r.passages() == Set::<((i32, i32), (i32, i32))>::empty(),
            r.cells() == Set::<(i32, i32)>::empty(),
    {
        Maze {
            graph: graph_with_capacity((width * height) as usize, 0),
            size: (width, height),
            start,
            goal,
        }
    }

    /// Retrieve the [`Field`] which is located at `coordinates`
    pub fn get_field(&self, coordinates: &Coordinates) -> (r: Option<Field>)
        ensures
            r is Some <==> self.inside(coordinates.pair()),
            r matches Some(f) ==> {
                &&& f.location() == *coordinates
                &&& forall|d: Direction| #[trigger] f.passage_to(d) <==> self.passages().contains(
                    (coordinates.pair(), step(coordinates.pair(), d)),
                )
                &&& f.kind() == (if self.start == *coordinates {
                    FieldType::Start
                } else if self.goal == *coordinates {
                    FieldType::Goal
                } else {
                    FieldType::Normal
                })
            },
    {
        if self.are_coordinates_inside(coordinates) {
            // figure out in which directions passages exist
            let all = Direction::all();
            let mut passages: Vec<Direction> = Vec::new();
            let mut i: usize = 0;
            while i < 4
                invariant
                    i <= 4,
                    all@ == all_directions(),
                    self.inside(coordinates.pair()),
                    forall|d: Direction| #[trigger] passages@.contains(d) <==> exists|j: int|
                        0 <= j < i && all@[j] == d && self.passages().contains(
                            (coordinates.pair(), step(coordinates.pair(), d)),
                        ),
                decreases 4 - i,
            {
                let dir = all[i];
                let next = coordinates.next(&dir);
                let present = graph_contains_edge(&self.graph, coordinates.to_pair(), next.to_pair());
                let ghost before = passages@;
                if present {
                    passages.push(dir);
                }
                assert forall|d: Direction| #[trigger] passages@.contains(d) <==> exists|j: int|
                    0 <= j < i + 1 && all@[j] == d && self.passages().contains(
                        (coordinates.pair(), step(coordinates.pair(), d)),
                    ) by {
                    if passages@.contains(d) {
                        if before.contains(d) {
                        } else {
                            let k = choose|k: int| 0 <= k < passages@.len() && passages@[k] == d;
                            assert(k == before.len());
                            assert(all@[i as int] == d);
                        }
                    }
                    if exists|j: int|
                        0 <= j < i + 1 && all@[j] == d && self.passages().contains(
                            (coordinates.pair(), step(coordinates.pair(), d)),
                        ) {
                        let j = choose|j: int|
                            0 <= j < i + 1 && all@[j] == d && self.passages().contains(
                                (coordinates.pair(), step(coordinates.pair(), d)),
                            );
                        if j < i {
                            assert(before.contains(d));
                            let k = choose|k: int| 0 <= k < before.len() && before[k] == d;
                            assert(passages@[k] == d);
                        } else {
                            assert(passages@[passages@.len() - 1] == d);
                        }
                    }
                }
                i += 1;
            }
            assert forall|d: Direction| #[trigger] passages@.contains(d) <==> self.passages().contains(
                (coordinates.pair(), step(coordinates.pair(), d)),
            ) by {
                let j: int = match d {
                    Direction::North => 0,
                    Direction::East => 1,
                    Direction::South => 2,
                    Direction::West => 3,
                };
                assert(all@[j] == d);
            }
            let field_type = if self.start == *coordinates {
                FieldType::Start
            } else if self.goal == *coordinates {
                FieldType::Goal
            } else {
                FieldType::Normal
            };
            Some(Field::new(field_type, *coordinates, passages))
        } else {
            None
        }
    }

    pub(crate) fn are_coordinates_inside(&self, coordinates: &Coordinates) -> (r: bool)
        ensures
            r == self.inside(coordinates.pair()),
    {
        coordinates.x >= 0 && coordinates.x < self.size.0 && coordinates.y >= 0 && coordinates.y
            < self.size.1
    }
}

/// [`Generator`] implementation which uses the recursive-backtracking algorithm.
#[derive(Debug)]
pub struct RbGenerator {
    rng: ChaCha20Rng,
}

/// Generic generator Api implemented by all algorithms to generate a maze
pub trait Generator {
    /// Key function to generate a maze
    ///
    /// The returned [`Maze`] will have the provided width and height.
    /// It can be any rectangular shape.
    fn generate(&mut self, width: i32, height: i32) -> (r: Maze)
        requires
            width > 0,
            height > 0,
            width * height <= i32::MAX,
        ensures
            r.size == (width, height),
            r.start.pair() == (0i32, 0i32),
            r.spanning_tree(),
            width * height > 1 ==> r.goal != r.start,
    ;
}

/// Going one step in a direction and then one step in the opposite
/// direction leads back to the cell one started from; the opposite of the
/// opposite is the direction itself.
pub proof fn lemma_step_back(c: (i32, i32), d: Direction)
    requires
        i32::MIN < c.0 < i32::MAX,
        i32::MIN < c.1 < i32::MAX,
    ensures
        step(step(c, d), direction_opposite(d)) == c,
        direction_opposite(direction_opposite(d)) == d,
{
}

/// In a generated maze every passage can be walked both ways: when the
/// field at `c` has a passage in direction `d` (see `Maze::get_field`), both
/// cells lie in the maze and the field one step that way has a passage back
/// in the opposite direction.
pub proof fn lemma_passage_both_ways(m: Maze, c: (i32, i32), d: Direction)
    requires
        m.spans_grid(),
        m.passages().contains((c, step(c, d))),
    ensures
        m.inside(c),
        m.inside(step(c, d)),
        m.passages().contains((step(c, d), step(step(c, d), direction_opposite(d)))),
{
    lemma_step_back(c, d);
}

/// In a generated maze the fields of two neighbouring cells agree on the
/// passage between them: the field at `c` has a passage in direction `d`
/// exactly when the field one step that way has one in the opposite
/// direction (see `Maze::get_field`).
pub proof fn lemma_passages_mirror(m: Maze, c: (i32, i32), d: Direction)
    requires
        m.spans_grid(),
        m.inside(c),
        m.inside(step(c, d)),
    ensures
        m.passages().contains((c, step(c, d))) <==> m.passages().contains(
            (step(c, d), step(step(c, d), direction_opposite(d))),
        ),
{
    lemma_step_back(c, d);
}

/// In a generated maze every cell can be reached from every other one: the
/// passages connect any two cells of the grid.
pub proof fn lemma_any_two_cells_connected(m: Maze, a: (i32, i32), b: (i32, i32))
    requires
        m.spans_grid(),
        m.inside(a),
        m.inside(b),
    ensures
        connected(m.passages(), a, b),
{
    let e = m.passages();
    let s = m.start.pair();
    assert(m.inside(a));
    assert(connected(e, s, a));
    assert(connected(e, s, b));
    let pa = choose|p: Seq<(i32, i32)>| #[trigger] is_path(e, p) && p[0] == s && p.last() == a;
    let pb = choose|p: Seq<(i32, i32)>| #[trigger] is_path(e, p) && p[0] == s && p.last() == b;
    // Walk back from a to the start along pa, then on to b along pb.
    let back = pa.reverse();
    assert(is_path(e, back)) by {
        assert forall|i: int| 0 <= i < back.len() - 1 implies #[trigger] e.contains((back[i], back[i + 1])) by {
            let j = pa.len() - 2 - i;
            assert(e.contains((pa[j], pa[j + 1])));
            assert(back[i] == pa[j + 1]);
            assert(back[i + 1] == pa[j]);
            assert(adjacent(pa[j], pa[j + 1]));
        }
    }
    let walk = back + pb.drop_first();
    assert(is_path(e, walk)) by {
        assert forall|i: int| 0 <= i < walk.len() - 1 implies #[trigger] e.contains((walk[i], walk[i + 1])) by {
            if i < back.len() - 1 {
                assert(walk[i] == back[i]);
                assert(walk[i + 1] == back[i + 1]);
                assert(e.contains((back[i], back[i + 1])));
            } else if i == back.len() - 1 {
                assert(walk[i] == back[i]);
                assert(back[i] == pa[0]);
                assert(walk[i + 1] == pb[1]);
                assert(e.contains((pb[0], pb[1])));
            } else {
                let k = i - back.len() + 1;
                assert(walk[i] == pb[k]);
                assert(walk[i + 1] == pb[k + 1]);
                assert(e.contains((pb[k], pb[k + 1])));
            }
        }
    }
    assert(walk[0] == a);
    if pb.len() == 1 {
        assert(walk.last() == back.last());
        assert(back.last() == pa[0]);
        assert(b == s);
    } else {
        assert(walk.last() == pb.last());
    }
}

proof fn lemma_connected_mono(
    e1: Set<((i32, i32), (i32, i32))>,
    e2: Set<((i32, i32), (i32, i32))>,
    a: (i32, i32),
    b: (i32, i32),
)
    requires
        connected(e1, a, b),
        e1.subset_of(e2),
    ensures
        connected(e2, a, b),
{
    let p = choose|p: Seq<(i32, i32)>| #[trigger] is_path(e1, p) && p[0] == a && p.last() == b;
    assert forall|i: int| 0 <= i < p.len() - 1 implies #[trigger] e2.contains((p[i], p[i + 1])) by {
        assert(e1.contains((p[i], p[i + 1])));
    }
    assert(is_path(e2, p));
}

proof fn lemma_connected_extend(
    e: Set<((i32, i32), (i32, i32))>,
    a: (i32, i32),
    b: (i32, i32),
    c: (i32, i32),
)
    requires
        connected(e, a, b),
        e.contains((b, c)),
    ensures
        connected(e, a, c),
{
    let p = choose|p: Seq<(i32, i32)>| #[trigger] is_path(e, p) && p[0] == a && p.last() == b;
    let q = p.push(c);
    assert forall|i: int| 0 <= i < q.len() - 1 implies #[trigger] e.contains((q[i], q[i + 1])) by {
        if i < p.len() - 1 {
            assert(q[i] == p[i] && q[i + 1] == p[i + 1]);
        } else {
            assert(q[i] == b && q[i + 1] == c);
        }
    }
    assert(is_path(e, q));
}

proof fn lemma_connected_refl(e: Set<((i32, i32), (i32, i32))>, a: (i32, i32))
    ensures
        connected(e, a, a),
{
    let p = seq![a];
    assert(is_path(e, p));
}

proof fn lemma_count_mono(n1: Set<(i32, i32)>, n2: Set<(i32, i32)>, w: int, k: int)
    requires
        n1.subset_of(n2),
    ensures
        count_unvisited(n2, w, k) <= count_unvisited(n1, w, k),
    decreases k,
{
    if k > 0 {
        lemma_count_mono(n1, n2, w, k - 1);
    }
}

proof fn lemma_count_strict(n1: Set<(i32, i32)>, n2: Set<(i32, i32)>, w: int, k: int, i: int)
    requires
        n1.subset_of(n2),
        0 <= i < k,
        !n1.contains(grid_cell(w, i)),
        n2.contains(grid_cell(w, i)),
    ensures
        count_unvisited(n2, w, k) < count_unvisited(n1, w, k),
    decreases k,
{
    if i == k - 1 {
        lemma_count_mono(n1, n2, w, k - 1);
    } else {
        lemma_count_strict(n1, n2, w, k - 1, i);
    }
}

/// Joining a node `c` to a cell `nx` that is not yet a node adds two
/// oriented edges and one node, and the depth witness extends to `nx` one
/// below `c`.
proof fn lemma_new_edge_counted(
    edges1: Set<((i32, i32), (i32, i32))>,
    cells1: Set<(i32, i32)>,
    c: (i32, i32),
    nx: (i32, i32),
)
    requires
        edges1.finite(),
        cells1.finite(),
        cells1.contains(c),
        !cells1.contains(nx),
        forall|a: (i32, i32), b: (i32, i32)| #[trigger] edges1.contains((a, b)) ==> cells1.contains(a)
            && cells1.contains(b),
        exists|d: Map<(i32, i32), nat>| depth_witness(edges1, cells1, d),
    ensures
        ({
            let edges2 = edges1.insert((c, nx)).insert((nx, c));
            let cells2 = cells1.insert(c).insert(nx);
            &&& edges2.len() == edges1.len() + 2
            &&& cells2.len() == cells1.len() + 1
            &&& exists|d: Map<(i32, i32), nat>| depth_witness(edges2, cells2, d)
        }),
{
    let edges2 = edges1.insert((c, nx)).insert((nx, c));
    let cells2 = cells1.insert(c).insert(nx);
    assert(edges2.len() == edges1.len() + 2 && cells2.len() == cells1.len() + 1) by {
        assert(!edges1.contains((c, nx)));
        assert(!edges1.contains((nx, c)));
        assert(cells1.insert(c) == cells1);
    }
    assert(exists|d: Map<(i32, i32), nat>| depth_witness(edges2, cells2, d)) by {
        let d1 = choose|d: Map<(i32, i32), nat>| depth_witness(edges1, cells1, d);
        let d2 = d1.insert(nx, d1[c] + 1);
        assert forall|a: (i32, i32), b: (i32, i32)| #[trigger]
            edges2.contains((a, b)) implies d2[a] + 1 == d2[b] || d2[b] + 1 == d2[a] by {
            if edges1.contains((a, b)) {
                assert(a != nx && b != nx);
            }
        }
        assert forall|n: (i32, i32), a: (i32, i32), b: (i32, i32)|
            #![trigger edges2.contains((n, a)), edges2.contains((n, b))]
            edges2.contains((n, a)) && edges2.contains((n, b)) && d2[a] < d2[n] && d2[b]
                < d2[n] implies a == b by {
            if n == nx {
                if edges1.contains((n, a)) {
                    assert(cells1.contains(nx));
                }
                if edges1.contains((n, b)) {
                    assert(cells1.contains(nx));
                }
            } else {
                if edges1.contains((n, a)) {
                    assert(cells1.contains(n) && cells1.contains(a));
                }
                if edges1.contains((n, b)) {
                    assert(cells1.contains(n) && cells1.contains(b));
                }
                assert(edges1.contains((n, a)) && edges1.contains((n, b)));
            }
        }
        assert(depth_witness(edges2, cells2, d2));
    }
}

/// An index of `p` whose cell has the greatest depth.
proof fn lemma_deepest(p: Seq<(i32, i32)>, d: Map<(i32, i32), nat>) -> (k: int)
    requires
        p.len() >= 1,
    ensures
        0 <= k < p.len(),
        forall|i: int| 0 <= i < p.len() ==> d[#[trigger] p[i]] <= d[p[k]],
    decreases p.len(),
{
    if p.len() == 1 {
        0
    } else {
        let q = p.drop_last();
        let j = lemma_deepest(q, d);
        assert forall|i: int| 0 <= i < q.len() implies d[#[trigger] p[i]] <= d[p[j]] by {
            assert(p[i] == q[i]);
        }
        let last = p.len() - 1;
        if d[p[last]] >= d[p[j]] {
            last
        } else {
            j
        }
    }
}

/// Edges that run both ways and admit a depth witness form no cycle: the
/// deepest cell of a cycle would have two distinct neighbours above it.
proof fn lemma_witness_acyclic(
    edges: Set<((i32, i32), (i32, i32))>,
    nodes: Set<(i32, i32)>,
    d: Map<(i32, i32), nat>,
)
    requires
        depth_witness(edges, nodes, d),
        forall|a: (i32, i32), b: (i32, i32)| #[trigger] edges.contains((a, b)) ==> edges.contains((b, a)),
    ensures
        acyclic(edges),
{
    assert forall|p: Seq<(i32, i32)>| !#[trigger] is_cycle(edges, p) by {
        if is_cycle(edges, p) {
            let n = p.len() as int;
            let k = lemma_deepest(p, d);
            let pk = if k == 0 {
                n - 1
            } else {
                k - 1
            };
            let nk = if k == n - 1 {
                0
            } else {
                k + 1
            };
            if k == 0 {
                assert(edges.contains((p[pk], p[k])));
            } else {
                assert(edges.contains((p[k - 1], p[k - 1 + 1])));
            }
            assert(edges.contains((p[k], p[pk])));
            if k == n - 1 {
                assert(edges.contains((p[k], p[nk])));
            } else {
                assert(edges.contains((p[k], p[k + 1])));
            }
            assert(d[p[pk]] <= d[p[k]] && d[p[nk]] <= d[p[k]]);
            assert(edges.contains((p[pk], p[k])) && edges.contains((p[k], p[nk])));
            assert(d[p[pk]] < d[p[k]]);
            assert(edges.contains((p[nk], p[k])));
            assert(d[p[nk]] < d[p[k]]);
            assert(p[pk] == p[nk]);
            if pk < nk {
                assert(p[pk] != p[nk]);
            } else {
                assert(p[nk] != p[pk]);
            }
        }
    }
}

/// The `w` x `h` grid has `w * h` cells.
proof fn lemma_grid_size(w: int, h: int)
    requires
        0 < w,
        0 < h,
        w * h <= i32::MAX,
    ensures
        grid_cells(w, h).finite(),
        grid_cells(w, h).len() == w * h,
{
    let r = vstd::set_lib::set_int_range(0, w * h);
    vstd::set_lib::lemma_int_range(0, w * h);
    let f = |i: int| grid_cell(w, i);
    assert forall|i: int, j: int| r.contains(i) && r.contains(j) && #[trigger] f(i) == #[trigger] f(j) implies i
        == j by {
        vstd::arithmetic::div_mod::lemma_fundamental_div_mod(i, w);
        vstd::arithmetic::div_mod::lemma_fundamental_div_mod(j, w);
        lemma_cell_of_index(w, h, i);
        lemma_cell_of_index(w, h, j);
    }
    assert(vstd::relations::injective_on(f, r));
    assert forall|c: (i32, i32)| #[trigger] grid_cells(w, h).contains(c) <==> r.map(f).contains(c) by {
        if grid_cells(w, h).contains(c) {
            lemma_grid_index(w, h, c);
            assert(r.contains(c.1 * w + c.0));
            assert(f(c.1 * w + c.0) == c);
        }
        if r.map(f).contains(c) {
            let i = choose|i: int| r.contains(i) && f(i) == c;
            lemma_cell_of_index(w, h, i);
        }
    }
    assert(r.map(f) == grid_cells(w, h));
    vstd::set_lib::lemma_map_size(r, grid_cells(w, h), f);
}

/// Cell number `i` of the grid lies in the grid, with its coordinates
/// taken without truncation.
proof fn lemma_cell_of_index(w: int, h: int, i: int)
    requires
        0 < w,
        0 < h,
        w * h <= i32::MAX,
        0 <= i < w * h,
    ensures
        0 <= i % w < w,
        0 <= i / w < h,
        grid_cell(w, i).0 == i % w,
        grid_cell(w, i).1 == i / w,
        in_grid(w, h, grid_cell(w, i)),
{
    let q = i / w;
    let r = i % w;
    vstd::arithmetic::div_mod::lemma_fundamental_div_mod(i, w);
    assert(0 <= q < h) by (nonlinear_arith)
        requires
            0 < w,
            0 < h,
            0 <= i < w * h,
            i == w * q + r,
            0 <= r < w,
    ;
    assert(w <= i32::MAX) by (nonlinear_arith)
        requires
            0 < w,
            0 < h,
            w * h <= i32::MAX,
    ;
}

/// A cell of the grid is cell number `y * w + x`.
proof fn lemma_grid_index(w: int, h: int, c: (i32, i32))
    requires
        in_grid(w, h, c),
    ensures
        0 <= c.1 * w + c.0 < w * h,
        grid_cell(w, c.1 * w + c.0) == c,
{
    let x = c.0 as int;
    let y = c.1 as int;
    assert(0 <= y * w) by (nonlinear_arith)
        requires
            0 <= y,
            0 < w,
    ;
    assert(y * w + x < w * h) by (nonlinear_arith)
        requires
            0 <= y < h,
            0 <= x < w,
    ;
    lemma_fundamental_div_mod_converse(y * w + x, w, y, x);
}

/// When the start is among `nodes` and every node has all its grid
/// neighbours among `nodes`, every cell of the grid is a node.
proof fn lemma_grid_filled(nodes: Set<(i32, i32)>, w: int, h: int, x: int, y: int)
    requires
        nodes.contains((0i32, 0i32)),
        forall|n: (i32, i32)| #[trigger] nodes.contains(n) ==> closed_cell(nodes, w, h, n),
        0 <= x < w,
        0 <= y < h,
        w <= i32::MAX,
        h <= i32::MAX,
    ensures
        nodes.contains((x as i32, y as i32)),
    decreases x + y,
{
    if x > 0 {
        lemma_grid_filled(nodes, w, h, x - 1, y);
        let p = ((x - 1) as i32, y as i32);
        assert(closed_cell(nodes, w, h, p));
        assert(step(p, Direction::East) == (x as i32, y as i32));
    } else if y > 0 {
        lemma_grid_filled(nodes, w, h, x, y - 1);
        let p = (x as i32, (y - 1) as i32);
        assert(closed_cell(nodes, w, h, p));
        assert(step(p, Direction::South) == (x as i32, y as i32));
    }
}

impl RbGenerator {
    /// Create a new instance.
    ///
    /// Optionally a 32 bit seed can be provided to seed the internal random generator.
    /// Giving a seed results in identical mazes being generated while omitting it sources
    /// the random generator from entropy (from the fixed seed `[42; 32]` where the
    /// system's entropy source fails).
    pub fn new(seed: Option<[u8; 32]>) -> (r: RbGenerator) {
        RbGenerator {
            rng: match seed {
                None => match rng_from_entropy() {
                    Some(rng) => rng,
                    None => rng_from_seed([42u8; 32]),
                },
                Some(seed) => rng_from_seed(seed),
            },
        }
    }

    /// Core algorithm implementation
    ///
    /// Carves passages in all directions in random order from the current coordinates but only
    /// if the field in that direction has not yet been processed.
    ///
    /// Returns coordinates of the goal field
    #[verifier::spinoff_prover]
    #[verifier::rlimit(60)]
    fn carve_passages_from(
        &mut self,
        maze: &mut Maze,
        current_coordinates: Coordinates,
        Ghost(stack): Ghost<Seq<(i32, i32)>>,
    ) -> (goal: Coordinates)
        requires
            old(maze).size.0 > 0,
            old(maze).size.1 > 0,
            carve_inv(
                old(maze).passages(),
                old(maze).cells(),
                old(maze).start.pair(),
                old(maze).size.0 as int,
                old(maze).size.1 as int,
            ),
            old(maze).cells().contains(current_coordinates.pair()),
            current_coordinates.pair() != old(maze).start.pair() ==> has_edge(
                old(maze).passages(),
                old(maze).start.pair(),
            ),
            forall|n: (i32, i32)| #[trigger]
                old(maze).cells().contains(n) && !stack.contains(n) && n
                    != current_coordinates.pair() ==> closed_cell(
                    old(maze).cells(),
                    old(maze).size.0 as int,
                    old(maze).size.1 as int,
                    n,
                ),
        ensures
            final(maze).size == old(maze).size,
            final(maze).start == old(maze).start,
            final(maze).goal == old(maze).goal,
            carve_inv(
                final(maze).passages(),
                final(maze).cells(),
                final(maze).start.pair(),
                final(maze).size.0 as int,
                final(maze).size.1 as int,
            ),
            old(maze).passages().subset_of(final(maze).passages()),
            old(maze).cells().subset_of(final(maze).cells()),
            forall|n: (i32, i32)| #[trigger]
                final(maze).cells().contains(n) && !stack.contains(n) ==> closed_cell(
                    final(maze).cells(),
                    final(maze).size.0 as int,
                    final(maze).size.1 as int,
                    n,
                ),
            final(maze).cells().contains(goal.pair()),
            goal.pair() == old(maze).start.pair() ==> current_coordinates.pair() == old(maze).start.pair()
                && final(maze).cells() == old(maze).cells(),
        decreases count_unvisited(
            old(maze).cells(),
            old(maze).size.0 as int,
            old(maze).size.0 as int * old(maze).size.1 as int,
        ),
    {
        let ghost w = maze.size.0 as int;
        let ghost h = maze.size.1 as int;
        let ghost s = maze.start.pair();
        let ghost c = current_coordinates.pair();
        let ghost cells0 = maze.cells();
        let ghost edges0 = maze.passages();
        let mut goal_coords = maze.start;
        let order = Direction::gen_random_order(&mut self.rng);
        let mut i: usize = 0;
        while i < 4
            invariant
                i <= 4,
                maze.size == old(maze).size,
                maze.start == old(maze).start,
                maze.goal == old(maze).goal,
                w == maze.size.0,
                h == maze.size.1,
                w > 0,
                h > 0,
                s == maze.start.pair(),
                c == current_coordinates.pair(),
                cells0 == old(maze).cells(),
                edges0 == old(maze).passages(),
                order@.to_multiset() == all_directions().to_multiset(),
                carve_inv(maze.passages(), maze.cells(), s, w, h),
                edges0.subset_of(maze.passages()),
                cells0.subset_of(maze.cells()),
                maze.cells().contains(c),
                c != s ==> has_edge(maze.passages(), s),
                forall|n: (i32, i32)| #[trigger]
                    maze.cells().contains(n) && !stack.contains(n) && n != c ==> closed_cell(
                        maze.cells(),
                        w,
                        h,
                        n,
                    ),
                forall|j: int|
                    0 <= j < i ==> in_grid(w, h, #[trigger] step(c, order@[j])) ==> maze.cells().contains(
                        step(c, order@[j]),
                    ),
                goal_coords == maze.start || maze.cells().contains(goal_coords.pair()),
                goal_coords == maze.start ==> maze.cells() == cells0,
                goal_coords != maze.start ==> goal_coords.pair() != s,
            decreases 4 - i,
        {
            let dir = order[i];
            assert(in_grid(w, h, c));
            let next_coords = current_coordinates.next(&dir);
            let ghost nx = next_coords.pair();
            if maze.are_coordinates_inside(&next_coords) && graph_neighbor_count(
                &maze.graph,
                next_coords.to_pair(),
            ) == 0 {
                let ghost cells1 = maze.cells();
                let ghost edges1 = maze.passages();
                assert(!cells1.contains(nx)) by {
                    if cells1.contains(nx) {
                        if nx == s {
                            assert(c != s) by {
                                assert(adjacent(c, nx));
                            }
                            let b = choose|b: (i32, i32)| #[trigger] edges1.contains((s, b));
                            assert(edges1.contains((nx, b)));
                        } else {
                            let b = choose|b: (i32, i32)| #[trigger] edges1.contains((nx, b));
                            assert(edges1.contains((nx, b)));
                        }
                    }
                }
                graph_add_edge(&mut maze.graph, current_coordinates.to_pair(), next_coords.to_pair());
                let ghost cells2 = maze.cells();
                let ghost edges2 = maze.passages();
                assert(edges1.subset_of(edges2));
                assert(cells1.subset_of(cells2));
                assert(edges2.contains((c, nx)));
                assert(adjacent(c, nx));
                // The graph invariant holds after the new passage.
                assert forall|n: (i32, i32)| #[trigger] cells2.contains(n) implies n == s || has_edge(
                    edges2,
                    n,
                ) by {
                    if n == c {
                        assert(edges2.contains((c, nx)));
                    } else if n == nx {
                        assert(edges2.contains((nx, c)));
                    } else if n != s {
                        let b = choose|b: (i32, i32)| #[trigger] edges1.contains((n, b));
                        assert(edges2.contains((n, b)));
                    }
                }
                assert forall|n: (i32, i32)| #[trigger] cells2.contains(n) implies connected(
                    edges2,
                    s,
                    n,
                ) by {
                    if n == nx {
                        lemma_connected_mono(edges1, edges2, s, c);
                        lemma_connected_extend(edges2, s, c, nx);
                    } else {
                        lemma_connected_mono(edges1, edges2, s, n);
                    }
                }
                proof {
                    lemma_new_edge_counted(edges1, cells1, c, nx);
                }
                assert(carve_inv(edges2, cells2, s, w, h));
                assert(has_edge(edges2, s)) by {
                    if c == s {
                        assert(edges2.contains((s, nx)));
                    } else {
                        let b = choose|b: (i32, i32)| #[trigger] edges1.contains((s, b));
                        assert(edges2.contains((s, b)));
                    }
                }
                assert forall|n: (i32, i32)| #[trigger]
                    cells2.contains(n) && !stack.push(c).contains(n) && n != nx implies closed_cell(
                    cells2,
                    w,
                    h,
                    n,
                ) by {
                    assert(stack.push(c).contains(c)) by {
                        assert(stack.push(c)[stack.len() as int] == c);
                    }
                    if !stack.contains(n) {
                        assert(cells1.contains(n));
                        assert(closed_cell(cells1, w, h, n));
                    } else {
                        let k = choose|k: int| 0 <= k < stack.len() && stack[k] == n;
                        assert(stack.push(c)[k] == n);
                    }
                }
                // The recursion makes progress: `nx` is a newly reached cell.
                proof {
                    lemma_grid_index(w, h, nx);
                    lemma_count_strict(cells0, cells2, w, w * h, nx.1 * w + nx.0);
                }
                let ghost stack2 = stack.push(c);
                assert(nx != s) by {
                    assert(cells1.contains(s));
                }
                if goal_coords == maze.start {
                    goal_coords = self.carve_passages_from(maze, next_coords, Ghost(stack2));
                    assert(goal_coords.pair() != s);
                } else {
                    self.carve_passages_from(maze, next_coords, Ghost(stack2));
                }
                let ghost cells3 = maze.cells();
                let ghost edges3 = maze.passages();
                assert(edges2.subset_of(edges3));
                assert(cells2.subset_of(cells3));
                assert(has_edge(edges3, s)) by {
                    let b = choose|b: (i32, i32)| #[trigger] edges2.contains((s, b));
                    assert(edges3.contains((s, b)));
                }
                assert forall|n: (i32, i32)| #[trigger]
                    cells3.contains(n) && !stack.contains(n) && n != c implies closed_cell(
                    cells3,
                    w,
                    h,
                    n,
                ) by {
                    if stack2.contains(n) {
                        let k = choose|k: int| 0 <= k < stack2.len() && stack2[k] == n;
                        if k < stack.len() {
                            assert(stack[k] == n);
                        }
                    }
                }
            } else {
                assert(in_grid(w, h, nx) ==> maze.cells().contains(nx)) by {
                    if in_grid(w, h, nx) {
                        assert(!(forall|b: (i32, i32)| !maze.passages().contains((nx, b))));
                        let b = choose|b: (i32, i32)| maze.passages().contains((nx, b));
                        assert(maze.passages().contains((nx, b)));
                    }
                }
            }
            assert(step(c, order@[i as int]) == nx);
            i += 1;
        }
        // Every neighbour of the current cell has been reached.
        assert(closed_cell(maze.cells(), w, h, c)) by {
            assert forall|d: Direction| in_grid(w, h, #[trigger] step(c, d)) implies maze.cells().contains(
                step(c, d),
            ) by {
                let j: int = match d {
                    Direction::North => 0,
                    Direction::East => 1,
                    Direction::South => 2,
                    Direction::West => 3,
                };
                assert(all_directions()[j] == d);
                assert(all_directions().contains(d));
                vstd::seq_lib::to_multiset_contains(all_directions(), d);
                vstd::seq_lib::to_multiset_contains(order@, d);
                assert(order@.contains(d));
                let k = choose|k: int| 0 <= k < order@.len() && order@[k] == d;
                assert(step(c, order@[k]) == step(c, d));
            }
        }
        if goal_coords == maze.start {
            current_coordinates
        } else {
            goal_coords
        }
    }
}

impl Generator for RbGenerator {
    fn generate(&mut self, width: i32, height: i32) -> (r: Maze) {
        let start = Coordinates::new(0, 0);
        let mut maze = Maze::new(width, height, start, start);
        graph_add_node(&mut maze.graph, start.to_pair());
        proof {
            lemma_connected_refl(maze.passages(), start.pair());
            let d = Map::<(i32, i32), nat>::empty().insert(start.pair(), 0nat);
            assert(depth_witness(maze.passages(), maze.cells(), d));
        }
        let ghost cells0 = maze.cells();
        let goal = self.carve_passages_from(&mut maze, start, Ghost(Seq::empty()));
        maze.goal = goal;
        proof {
            let w = width as int;
            let h = height as int;
            assert forall|c: (i32, i32)| #[trigger] maze.inside(c) implies connected(
                maze.passages(),
                maze.start.pair(),
                c,
            ) by {
                lemma_grid_filled(maze.cells(), w, h, c.0 as int, c.1 as int);
            }
            assert forall|c: (i32, i32)| #[trigger] maze.cells().contains(c) <==> grid_cells(w, h).contains(
                c,
            ) by {
                if grid_cells(w, h).contains(c) {
                    lemma_grid_filled(maze.cells(), w, h, c.0 as int, c.1 as int);
                }
            }
            assert(maze.cells() == grid_cells(w, h));
            lemma_grid_size(w, h);
            let d = choose|d: Map<(i32, i32), nat>| depth_witness(maze.passages(), maze.cells(), d);
            lemma_witness_acyclic(maze.passages(), maze.cells(), d);
            // Only a maze of one cell keeps its goal on the start: otherwise
            // the carving reached a cell beyond the start.
            if w * h > 1 && goal.pair() == start.pair() {
                assert(cells0 == Set::<(i32, i32)>::empty().insert(start.pair()));
                assert(cells0.len() == 1);
            }
        }
        maze
    }
}

} // verus!
