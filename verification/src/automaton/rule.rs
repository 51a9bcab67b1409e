use crate::world::coord::{
    adjacent, in_interior, in_lattice, lemma_neighbor_symmetric,
    lemma_neighbors_are_the_adjacent_points, neighbor, Coord, Point,
};
use crate::world::world::{live_at, live_neighbors, World};
use vstd::prelude::*;

verus! {

/// The fate of one cell: a live cell stays alive with two or three live neighbours, a
/// dead cell comes alive with exactly three. Every other cell is dead.
pub open spec fn survives(alive: bool, neighbors: nat) -> bool {
    if alive {
        neighbors == 2 || neighbors == 3
    } else {
        neighbors == 3
    }
}

/// Whether the cell at `p` is alive one generation after `cells`.
pub open spec fn next_alive(cells: Set<Point>, p: Point) -> bool {
    survives(cells.contains(p), live_neighbors(cells, p))
}

/// The generation that follows `cells` on the unbounded plane.
pub open spec fn life_step(cells: Set<Point>) -> Set<Point> {
    Set::new(|p: Point| next_alive(cells, p))
}

/// The generation that follows `cells`, as far as the lattice holds it.
pub open spec fn life_step_in_lattice(cells: Set<Point>) -> Set<Point> {
    Set::new(|p: Point| in_lattice(p) && next_alive(cells, p))
}

/// `p` is `a` or one of its Moore neighbours.
pub open spec fn near(a: Point, p: Point) -> bool {
    p == a || adjacent(a, p)
}

proof fn lemma_no_neighbors_in_empty(p: Point)
    ensures
        live_neighbors(Set::<Point>::empty(), p) == 0,
{
}

/// An empty generation is followed by an empty generation.
pub proof fn lemma_empty_stays_empty()
    ensures
        life_step(Set::<Point>::empty()) == Set::<Point>::empty(),
        life_step_in_lattice(Set::<Point>::empty()) == Set::<Point>::empty(),
{
    let none = Set::<Point>::empty();
    assert forall|p: Point| !life_step(none).contains(p) && !life_step_in_lattice(none).contains(
        p,
    ) by {
        lemma_no_neighbors_in_empty(p);
    }
    assert(life_step(none) =~= none);
    assert(life_step_in_lattice(none) =~= none);
}

/// A live cell with four or more live neighbours, or with fewer than two, is dead in
/// the next generation.
pub proof fn lemma_crowded_or_lonely_cell_dies(cells: Set<Point>, p: Point)
    requires
        cells.contains(p),
        live_neighbors(cells, p) >= 4 || live_neighbors(cells, p) < 2,
    ensures
        !life_step(cells).contains(p),
        !life_step_in_lattice(cells).contains(p),
{
}

/// A dead cell with exactly three live neighbours is alive in the next generation.
pub proof fn lemma_birth(cells: Set<Point>, p: Point)
    requires
        !cells.contains(p),
        live_neighbors(cells, p) == 3,
    ensures
        life_step(cells).contains(p),
        in_lattice(p) ==> life_step_in_lattice(cells).contains(p),
{
}

/// Only a cell near a live cell can be alive in the next generation.
pub proof fn lemma_next_alive_is_near(cells: Set<Point>, p: Point)
    requires
        next_alive(cells, p),
    ensures
        exists|a: Point| cells.contains(a) && near(a, p),
{
    if cells.contains(p) {
        assert(near(p, p));
    } else {
        let k = choose|k: int| 0 <= k < 8 && cells.contains(#[trigger] neighbor(p, k));
        let a = neighbor(p, k);
        lemma_neighbor_symmetric(p, k);
        lemma_neighbors_are_the_adjacent_points(a);
        assert(adjacent(a, neighbor(a, 7 - k)));
        assert(near(a, p));
    }
}

/// Where no live cell touches the edge of the lattice, the lattice holds the whole
/// next generation.
pub proof fn lemma_step_stays_in_lattice(cells: Set<Point>)
    requires
        forall|p: Point| cells.contains(p) ==> in_interior(p),
    ensures
        life_step_in_lattice(cells) == life_step(cells),
{
    assert forall|p: Point| next_alive(cells, p) implies in_lattice(p) by {
        lemma_next_alive_is_near(cells, p);
        let a = choose|a: Point| cells.contains(a) && near(a, p);
        assert(in_interior(a));
    }
    assert(life_step_in_lattice(cells) =~= life_step(cells));
}

/// A transformation of one generation into the next that depends on nothing but the
/// generation it is given.
pub trait Rule: Send + Sync {
    /// The cells that are alive one generation after `cells`.
    spec fn next_generation(&self, cells: Set<Point>) -> Set<Point>;

    /// A new world that holds the generation after `current`.
    fn apply(&self, current: &World) -> (next: World)
        ensures
            next@ == self.next_generation(current@),
    ;

    fn name(&self) -> &str;
}

/// Conway's rule on the Moore neighbourhood.
#[derive(Debug)]
pub struct GameOfLife;

impl Clone for GameOfLife {
    fn clone(&self) -> Self {
        Self
    }
}

impl GameOfLife {
    pub fn new() -> Self {
        Self
    }
}

impl Default for GameOfLife {
    fn default() -> Self {
        Self::new()
    }
}

impl Rule for GameOfLife {
    open spec fn next_generation(&self, cells: Set<Point>) -> Set<Point> {
        life_step_in_lattice(cells)
    }

    /// Reads `current` only: the cells that can change are the live cells and their
    /// neighbours, and each is judged by what `current` holds.
    fn apply(&self, current: &World) -> (next: World)
        ensures
            next@ == life_step_in_lattice(current@),
    {
        let candidates = candidate_cells(current);
        let mut next = World::new();
        let mut i: usize = 0;
        while i < candidates.len()
            invariant
                i <= candidates.len(),
                forall|p: Point|
                    next@.contains(p) <==> next_alive(current@, p) && exists|j: int|
                        0 <= j < i && (#[trigger] candidates@[j])@ == p,
            decreases candidates.len() - i,
        {
            let coord = candidates[i];
            let alive = current.get_cell(coord);
            let neighbors = current.count_neighbors(coord);
            let next_state = if alive {
                neighbors == 2 || neighbors == 3
            } else {
                neighbors == 3
            };
            if next_state {
                next.set_cell(coord, true);
            }
            i = i + 1;
        }
        proof {
            assert forall|p: Point| in_lattice(p) && next_alive(current@, p) implies next@.contains(
                p,
            ) by {
                lemma_next_alive_is_near(current@, p);
                let c = Coord { x: p.0 as i32, y: p.1 as i32 };
                assert(c@ == p);
                assert(candidates@.contains(c));
                let j = choose|j: int| 0 <= j < candidates@.len() && candidates@[j] == c;
                assert(candidates@[j]@ == p);
            }
            assert(next@ =~= life_step_in_lattice(current@));
        }
        next
    }

    fn name(&self) -> (name: &str)
        ensures
            name@ == "Conway's Game of Life"@,
    {
        "Conway's Game of Life"
    }
}

/// `p` is near one of the first `n` of `cells`.
spec fn near_any(cells: Seq<Coord>, n: int, p: Point) -> bool {
    exists|j: int| 0 <= j < n && near((#[trigger] cells[j])@, p)
}

/// `p` is one of the first `k` Moore neighbours of `a`.
spec fn neighbor_below(a: Point, k: int, p: Point) -> bool {
    exists|m: int| 0 <= m < k && #[trigger] neighbor(a, m) == p
}

proof fn lemma_near_any_step(cells: Seq<Coord>, n: int, p: Point)
    requires
        0 <= n < cells.len(),
    ensures
        near_any(cells, n + 1, p) <==> near_any(cells, n, p) || near(cells[n]@, p),
{
    if near_any(cells, n + 1, p) {
        let j = choose|j: int| 0 <= j < n + 1 && near((#[trigger] cells[j])@, p);
        if j < n {
            assert(near_any(cells, n, p));
        }
    }
    if near_any(cells, n, p) {
        let j = choose|j: int| 0 <= j < n && near((#[trigger] cells[j])@, p);
        assert(0 <= j < n + 1 && near(cells[j]@, p));
    }
    if near(cells[n]@, p) {
        assert(0 <= n < n + 1 && near(cells[n]@, p));
    }
}

proof fn lemma_neighbor_below_step(a: Point, k: int, p: Point)
    requires
        0 <= k,
    ensures
        !neighbor_below(a, 0, p),
        neighbor_below(a, k + 1, p) <==> neighbor_below(a, k, p) || neighbor(a, k) == p,
{
    if neighbor_below(a, k + 1, p) {
        let m = choose|m: int| 0 <= m < k + 1 && #[trigger] neighbor(a, m) == p;
        if m < k {
            assert(neighbor_below(a, k, p));
        }
    }
    if neighbor_below(a, k, p) {
        let m = choose|m: int| 0 <= m < k && #[trigger] neighbor(a, m) == p;
        assert(0 <= m < k + 1 && neighbor(a, m) == p);
    }
    if neighbor(a, k) == p {
        assert(0 <= k < k + 1 && neighbor(a, k) == p);
    }
}

proof fn lemma_near_is_self_or_neighbor(a: Point, p: Point)
    ensures
        near(a, p) <==> p == a || neighbor_below(a, 8, p),
{
    lemma_neighbors_are_the_adjacent_points(a);
    if neighbor_below(a, 8, p) {
        let m = choose|m: int| 0 <= m < 8 && #[trigger] neighbor(a, m) == p;
        assert(adjacent(a, neighbor(a, m)));
    }
    if adjacent(a, p) {
        let m = choose|m: int| 0 <= m < 8 && #[trigger] neighbor(a, m) == p;
        assert(neighbor_below(a, 8, p));
    }
}

/// The cells that one generation can change: each live cell of `world` and each of
/// its neighbours, once.
pub fn candidate_cells(world: &World) -> (candidates: Vec<Coord>)
    ensures
        candidates@.no_duplicates(),
        forall|c: Coord|
            candidates@.contains(c) <==> exists|a: Point| world@.contains(a) && near(a, c@),
{
    let cells = world.iter_active_cells();
    let mut found = World::new();
    let mut i: usize = 0;
    while i < cells.len()
        invariant
            i <= cells.len(),
            forall|p: Point| #[trigger]
                found@.contains(p) <==> in_lattice(p) && near_any(cells@, i as int, p),
        decreases cells.len() - i,
    {
        let cell = cells[i];
        let ghost before = found@;
        found.set_cell(cell, true);
        proof {
            assert forall|p: Point| !neighbor_below(cell@, 0, p) by {
                lemma_neighbor_below_step(cell@, 0, p);
            }
        }
        let mut k: usize = 0;
        while k < 8
            invariant
                k <= 8,
                forall|p: Point| #[trigger]
                    found@.contains(p) <==> before.contains(p) || p == cell@ || (in_lattice(p)
                        && neighbor_below(cell@, k as int, p)),
            decreases 8 - k,
        {
            let ghost inner = found@;
            match cell.neighbor_at(k) {
                Some(n) => {
                    found.set_cell(n, true);
                },
                None => {},
            }
            proof {
                assert forall|p: Point| #[trigger]
                    found@.contains(p) <==> before.contains(p) || p == cell@ || (in_lattice(p)
                        && neighbor_below(cell@, k + 1, p)) by {
                    lemma_neighbor_below_step(cell@, k as int, p);
                    assert(inner.contains(p) <==> before.contains(p) || p == cell@ || (in_lattice(
                        p,
                    ) && neighbor_below(cell@, k as int, p)));
                }
            }
            k = k + 1;
        }
        proof {
            assert forall|p: Point| #[trigger]
                found@.contains(p) <==> in_lattice(p) && near_any(cells@, i + 1, p) by {
                lemma_near_any_step(cells@, i as int, p);
                lemma_near_is_self_or_neighbor(cell@, p);
                assert(before.contains(p) <==> in_lattice(p) && near_any(cells@, i as int, p));
            }
        }
        i = i + 1;
    }
    let candidates = found.iter_active_cells();
    proof {
        world.lemma_view_finite();
        assert forall|c: Coord| candidates@.contains(c) implies exists|a: Point|
            world@.contains(a) && near(a, c@) by {
            assert(found@.contains(c@));
            assert(near_any(cells@, i as int, c@));
            let j = choose|j: int| 0 <= j < i && near((#[trigger] cells@[j])@, c@);
            assert(cells@.contains(cells@[j]));
            assert(world@.contains(cells@[j]@));
        }
        assert forall|c: Coord|
            (exists|a: Point| world@.contains(a) && near(a, c@)) implies candidates@.contains(
            c,
        ) by {
            let a = choose|a: Point| world@.contains(a) && near(a, c@);
            assert(in_lattice(a));
            let ac = Coord { x: a.0 as i32, y: a.1 as i32 };
            assert(ac@ == a);
            assert(cells@.contains(ac));
            let j = choose|j: int| 0 <= j < cells@.len() && cells@[j] == ac;
            assert(near(cells@[j]@, c@));
            assert(near_any(cells@, i as int, c@));
            assert(found@.contains(c@));
        }
    }
    candidates
}

} // verus!
