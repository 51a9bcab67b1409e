use super::chunk::{Chunk, CHUNK_SIZE};
use super::coord::{
    adjacent, chunk_of, in_lattice, lemma_chunk_local_inverse, lemma_floor_div_fits,
    lemma_neighbors_are_the_adjacent_points, local_of, neighbor, Coord, Point,
};
use super::key::{
    lemma_pack_unpack, lemma_unpack_pack, pack, pack_key, unpack, unpack_key,
};
use std::collections::HashMap;
use vstd::prelude::*;
use vstd::std_specs::iter::IteratorSpec;

verus! {

broadcast use vstd::std_specs::hash::group_hash_axioms;

/// The chunks that hold at least one of `cells`.
pub open spec fn occupied_chunks(cells: Set<Point>) -> Set<Point> {
    cells.map(|p: Point| chunk_of(p, CHUNK_SIZE as int))
}

/// A chunk is occupied while it holds a live cell and no longer: the death of the
/// last live cell of a chunk takes the chunk from the occupied ones, and the death of
/// any other cell leaves the occupied chunks as they are.
pub proof fn lemma_chunk_leaves_with_its_last_cell(cells: Set<Point>, p: Point)
    requires
        cells.finite(),
        cells.contains(p),
    ensures
        occupied_chunks(cells).finite(),
        occupied_chunks(cells.remove(p)).finite(),
        (forall|q: Point|
            cells.contains(q) && q != p ==> chunk_of(q, CHUNK_SIZE as int) != chunk_of(
                p,
                CHUNK_SIZE as int,
            )) ==> !occupied_chunks(cells.remove(p)).contains(chunk_of(p, CHUNK_SIZE as int))
            && occupied_chunks(cells.remove(p)) == occupied_chunks(cells).remove(
            chunk_of(p, CHUNK_SIZE as int),
        ) && occupied_chunks(cells.remove(p)).len() == occupied_chunks(cells).len() - 1,
        (exists|q: Point|
            cells.contains(q) && q != p && chunk_of(q, CHUNK_SIZE as int) == chunk_of(
                p,
                CHUNK_SIZE as int,
            )) ==> occupied_chunks(cells.remove(p)) == occupied_chunks(cells),
{
    let f = |q: Point| chunk_of(q, CHUNK_SIZE as int);
    let c = chunk_of(p, CHUNK_SIZE as int);
    let rest = cells.remove(p);
    cells.lemma_map_finite(f);
    rest.lemma_map_finite(f);
    assert(occupied_chunks(cells).contains(c)) by {
        assert(cells.contains(p) && c == f(p));
    }
    assert forall|d: Point| occupied_chunks(rest).contains(d) implies occupied_chunks(
        cells,
    ).contains(d) by {
        let q = choose|q: Point| rest.contains(q) && d == f(q);
        assert(cells.contains(q) && d == f(q));
    }
    assert forall|d: Point| occupied_chunks(cells).contains(d) && d != c implies occupied_chunks(
        rest,
    ).contains(d) by {
        let q = choose|q: Point| cells.contains(q) && d == f(q);
        assert(rest.contains(q) && d == f(q));
    }
    if forall|q: Point|
        cells.contains(q) && q != p ==> chunk_of(q, CHUNK_SIZE as int) != chunk_of(
            p,
            CHUNK_SIZE as int,
        ) {
        assert(!occupied_chunks(rest).contains(c)) by {
            if occupied_chunks(rest).contains(c) {
                let q = choose|q: Point| rest.contains(q) && c == f(q);
                assert(cells.contains(q) && q != p);
            }
        }
        assert(occupied_chunks(rest) =~= occupied_chunks(cells).remove(c));
    }
    if exists|q: Point|
        cells.contains(q) && q != p && chunk_of(q, CHUNK_SIZE as int) == chunk_of(
            p,
            CHUNK_SIZE as int,
        ) {
        let q = choose|q: Point|
            cells.contains(q) && q != p && chunk_of(q, CHUNK_SIZE as int) == chunk_of(
                p,
                CHUNK_SIZE as int,
            );
        assert(rest.contains(q) && c == f(q));
        assert(occupied_chunks(rest).contains(c));
        assert(occupied_chunks(rest) =~= occupied_chunks(cells));
    }
}

/// One for a live cell, nothing for a dead one.
pub open spec fn live_at(cells: Set<Point>, p: Point) -> nat {
    if cells.contains(p) {
        1
    } else {
        0
    }
}

/// The number of live cells among the eight Moore neighbours of `p`.
pub open spec fn live_neighbors(cells: Set<Point>, p: Point) -> nat {
    live_at(cells, neighbor(p, 0)) + live_at(cells, neighbor(p, 1)) + live_at(
        cells,
        neighbor(p, 2),
    ) + live_at(cells, neighbor(p, 3)) + live_at(cells, neighbor(p, 4)) + live_at(
        cells,
        neighbor(p, 5),
    ) + live_at(cells, neighbor(p, 6)) + live_at(cells, neighbor(p, 7))
}

/// The number of live cells among the first `k` Moore neighbours of `p`.
pub open spec fn live_among(cells: Set<Point>, p: Point, k: nat) -> nat
    decreases k,
{
    if k == 0 {
        0
    } else {
        live_among(cells, p, (k - 1) as nat) + live_at(cells, neighbor(p, k - 1))
    }
}

/// The live cells among the first `k` Moore neighbours of `p`.
spec fn live_set_among(cells: Set<Point>, p: Point, k: nat) -> Set<Point> {
    Set::new(
        |q: Point| cells.contains(q) && exists|i: int| 0 <= i < k && #[trigger] neighbor(p, i) == q,
    )
}

/// Counting neighbour by neighbour gives the number of live neighbours.
pub proof fn lemma_live_among_all(cells: Set<Point>, p: Point)
    ensures
        live_among(cells, p, 8) == live_neighbors(cells, p),
        live_neighbors(cells, p) <= 8,
{
    reveal_with_fuel(live_among, 9);
}

proof fn lemma_live_set_among(cells: Set<Point>, p: Point, k: nat)
    requires
        k <= 8,
    ensures
        live_set_among(cells, p, k).finite(),
        live_set_among(cells, p, k).len() == live_among(cells, p, k),
    decreases k,
{
    if k == 0 {
        assert(live_set_among(cells, p, k) =~= Set::<Point>::empty());
    } else {
        let j = (k - 1) as nat;
        lemma_live_set_among(cells, p, j);
        lemma_neighbors_are_the_adjacent_points(p);
        let q = neighbor(p, j as int);
        if cells.contains(q) {
            assert(!live_set_among(cells, p, j).contains(q));
            assert(live_set_among(cells, p, k) =~= live_set_among(cells, p, j).insert(q));
        } else {
            assert(live_set_among(cells, p, k) =~= live_set_among(cells, p, j));
        }
    }
}

/// The number of live neighbours of `p` is the number of live cells adjacent to `p`.
pub proof fn lemma_live_neighbors_counts_adjacent(cells: Set<Point>, p: Point)
    ensures
        cells.filter(|q: Point| adjacent(p, q)).finite(),
        live_neighbors(cells, p) == cells.filter(|q: Point| adjacent(p, q)).len(),
{
    lemma_live_among_all(cells, p);
    lemma_live_set_among(cells, p, 8);
    lemma_neighbors_are_the_adjacent_points(p);
    assert(live_set_among(cells, p, 8) =~= cells.filter(|q: Point| adjacent(p, q)));
}

/// `lo` and `hi` are the corners of the smallest box that holds `cells`: each side
/// of the box touches a cell.
pub open spec fn is_bounding_box(cells: Set<Point>, lo: Point, hi: Point) -> bool {
    &&& forall|p: Point| cells.contains(p) ==> lo.0 <= p.0 <= hi.0 && lo.1 <= p.1 <= hi.1
    &&& exists|p: Point| cells.contains(p) && p.0 == lo.0
    &&& exists|p: Point| cells.contains(p) && p.1 == lo.1
    &&& exists|p: Point| cells.contains(p) && p.0 == hi.0
    &&& exists|p: Point| cells.contains(p) && p.1 == hi.1
}

/// The key under which the chunk of `p` is registered.
spec fn key_of(p: Point) -> u64 {
    pack(chunk_of(p, CHUNK_SIZE as int)) as u64
}

/// The point at the place `l` of the chunk `c`.
spec fn compose(c: Point, l: Point) -> Point {
    (c.0 * CHUNK_SIZE + l.0, c.1 * CHUNK_SIZE + l.1)
}

/// A chunk all of whose places lie in the lattice.
spec fn valid_chunk(c: Point) -> bool {
    in_lattice(compose(c, (0, 0))) && in_lattice(compose(c, (CHUNK_SIZE - 1, CHUNK_SIZE - 1)))
}

/// A place inside a chunk.
spec fn valid_local(l: Point) -> bool {
    0 <= l.0 < CHUNK_SIZE && 0 <= l.1 < CHUNK_SIZE
}

/// A lattice point lies at a valid place of a valid chunk, and its key tells its chunk.
proof fn lemma_decompose(p: Point)
    requires
        in_lattice(p),
    ensures
        valid_chunk(chunk_of(p, CHUNK_SIZE as int)),
        valid_local(local_of(p, CHUNK_SIZE as int)),
        in_lattice(chunk_of(p, CHUNK_SIZE as int)),
        compose(chunk_of(p, CHUNK_SIZE as int), local_of(p, CHUNK_SIZE as int)) == p,
        unpack(key_of(p) as int) == chunk_of(p, CHUNK_SIZE as int),
        pack(chunk_of(p, CHUNK_SIZE as int)) == key_of(p),
{
    lemma_chunk_local_inverse(p, CHUNK_SIZE as int);
    lemma_floor_div_fits(p.0, CHUNK_SIZE as int);
    lemma_floor_div_fits(p.1, CHUNK_SIZE as int);
    lemma_pack_unpack(chunk_of(p, CHUNK_SIZE as int));
}

/// The place `l` of the chunk `c` is a lattice point of that chunk, at that place.
proof fn lemma_compose(c: Point, l: Point)
    requires
        valid_chunk(c),
        valid_local(l),
    ensures
        in_lattice(compose(c, l)),
        chunk_of(compose(c, l), CHUNK_SIZE as int) == c,
        local_of(compose(c, l), CHUNK_SIZE as int) == l,
{
    lemma_chunk_local_inverse(compose(c, l), CHUNK_SIZE as int);
}

/// The sparse lattice: the live cells, held chunk by chunk.
#[derive(Debug)]
pub struct World {
    chunks: HashMap<u64, Chunk>,
}

impl View for World {
    type V = Set<Point>;

    /// The live cells.
    closed spec fn view(&self) -> Set<Point> {
        Set::new(
            |p: Point|
                in_lattice(p) && self.chunks@.contains_key(key_of(p)) && self.chunks@[key_of(
                    p,
                )]@.contains(local_of(p, CHUNK_SIZE as int)),
        )
    }
}

impl World {
    /// Every registered chunk lies in the lattice, holds a cell, and holds cells at
    /// places of the chunk only.
    #[verifier::type_invariant]
    closed spec fn wf(&self) -> bool {
        forall|k: u64| #[trigger]
            self.chunks@.contains_key(k) ==> {
                &&& valid_chunk(unpack(k as int))
                &&& !self.chunks@[k]@.is_empty()
                &&& forall|l: Point| #[trigger] self.chunks@[k]@.contains(l) ==> valid_local(l)
            }
    }

    /// A world without a live cell.
    pub fn new() -> (w: Self)
        ensures
            w@ == Set::<Point>::empty(),
    {
        let w = Self { chunks: HashMap::new() };
        assert(w@ =~= Set::<Point>::empty());
        w
    }

    /// Whether the cell at `coord` is alive. A cell outside every chunk is dead.
    pub fn get_cell(&self, coord: Coord) -> (alive: bool)
        ensures
            alive == self@.contains(coord@),
    {
        let (chunk_x, chunk_y) = coord.chunk_coord(CHUNK_SIZE);
        let (local_x, local_y) = coord.local_coord(CHUNK_SIZE);
        let key = pack_key(chunk_x, chunk_y);
        match self.chunks.get(&key) {
            Some(chunk) => chunk.get_cell(local_x, local_y),
            None => false,
        }
    }

    /// Makes the cell at `coord` alive or dead. A chunk is registered with its first
    /// live cell and leaves with its last.
    pub fn set_cell(&mut self, coord: Coord, alive: bool)
        ensures
            alive ==> final(self)@ == old(self)@.insert(coord@),
            !alive ==> final(self)@ == old(self)@.remove(coord@),
    {
        proof {
            use_type_invariant(&*self);
            lemma_decompose(coord@);
        }
        let (chunk_x, chunk_y) = coord.chunk_coord(CHUNK_SIZE);
        let (local_x, local_y) = coord.local_coord(CHUNK_SIZE);
        let key = pack_key(chunk_x, chunk_y);
        // The map is taken out while it changes, so that the world is whole at every step.
        let mut chunks: HashMap<u64, Chunk> = HashMap::new();
        core::mem::swap(&mut self.chunks, &mut chunks);
        if alive {
            let mut chunk = match chunks.remove(&key) {
                Some(chunk) => chunk,
                None => Chunk::new(),
            };
            chunk.set_cell(local_x, local_y, true);
            assert(chunk@.contains(local_of(coord@, CHUNK_SIZE as int)));
            chunks.insert(key, chunk);
        } else {
            match chunks.remove(&key) {
                Some(mut chunk) => {
                    chunk.set_cell(local_x, local_y, false);
                    if !chunk.is_empty() {
                        chunks.insert(key, chunk);
                    }
                },
                None => {},
            }
        }
        self.chunks = chunks;
        proof {
            assert forall|p: Point| in_lattice(p) && p != coord@ && key_of(p) == key implies local_of(
                p,
                CHUNK_SIZE as int,
            ) != local_of(coord@, CHUNK_SIZE as int) by {
                lemma_decompose(p);
            }
            if alive {
                assert(self@ =~= old(self)@.insert(coord@));
            } else {
                assert(self@ =~= old(self)@.remove(coord@));
            }
        }
    }

    /// The number of registered chunks: as many as hold a live cell.
    pub fn chunk_count(&self) -> (count: usize)
        ensures
            count == occupied_chunks(self@).len(),
    {
        proof {
            use_type_invariant(self);
            self.lemma_registered();
        }
        self.chunks.len()
    }

    /// Removes every cell.
    pub fn clear(&mut self)
        ensures
            final(self)@ == Set::<Point>::empty(),
    {
        self.chunks = HashMap::new();
        assert(self@ =~= Set::<Point>::empty());
    }

    /// The number of live cells. A count that `usize` cannot hold is given as
    /// `usize::MAX`.
    pub fn active_cell_count(&self) -> (count: usize)
        ensures
            self@.len() <= usize::MAX ==> count == self@.len(),
            self@.len() > usize::MAX ==> count == usize::MAX,
    {
        proof {
            use_type_invariant(self);
        }
        let mut count: usize = 0;
        let ghost entries = self.chunks.iter().remaining();
        let ghost mut seen: Set<u64> = Set::empty();
        assert(self.cells_under(seen) =~= Set::<Point>::empty());
        for entry in it: self.chunks.iter()
            invariant
                self.wf(),
                it.seq() == entries,
                entries.no_duplicates(),
                entries.len() == self.chunks@.dom().len(),
                forall|i: int|
                    0 <= i < entries.len() ==> self.chunks@.contains_key(*(#[trigger] entries[i]).0)
                        && self.chunks@[*entries[i].0] == *entries[i].1,
                seen.finite(),
                forall|k: u64|
                    seen.contains(k) <==> exists|i: int|
                        0 <= i < it.index() && *(#[trigger] entries[i]).0 == k,
                self.cells_under(seen).finite(),
                self.cells_under(seen).len() <= usize::MAX ==> count == self.cells_under(
                    seen,
                ).len(),
                self.cells_under(seen).len() > usize::MAX ==> count == usize::MAX,
        {
            let (key, chunk) = entry;
            proof {
                let i = it.index();
                assert(entries[i] == entry);
                assert(!seen.contains(*key)) by {
                    if seen.contains(*key) {
                        let j = choose|j: int| 0 <= j < i && *(#[trigger] entries[j]).0 == *key;
                        assert(entries[j] == entries[i]);
                    }
                }
                self.lemma_cells_under_insert(seen, *key);
                seen = seen.insert(*key);
            }
            count = count.saturating_add(chunk.active_count());
        }
        proof {
            assert(seen =~= self.chunks@.dom()) by {
                assert forall|k: u64| self.chunks@.dom().contains(k) implies seen.contains(k) by {
                    assert(entries.contains((&k, &self.chunks@[k])));
                }
            }
            assert(self@ =~= self.cells_under(seen));
        }
        count
    }

    /// The live cells, each once, in no particular order.
    pub fn iter_active_cells(&self) -> (cells: Vec<Coord>)
        ensures
            cells@.no_duplicates(),
            forall|c: Coord| cells@.contains(c) <==> self@.contains(c@),
    {
        proof {
            use_type_invariant(self);
        }
        let mut cells: Vec<Coord> = Vec::new();
        let ghost entries = self.chunks.iter().remaining();
        let ghost mut seen: Set<u64> = Set::empty();
        for entry in it: self.chunks.iter()
            invariant
                self.wf(),
                it.seq() == entries,
                entries.no_duplicates(),
                forall|i: int|
                    0 <= i < entries.len() ==> self.chunks@.contains_key(*(#[trigger] entries[i]).0)
                        && self.chunks@[*entries[i].0] == *entries[i].1,
                forall|k: u64|
                    seen.contains(k) <==> exists|i: int|
                        0 <= i < it.index() && *(#[trigger] entries[i]).0 == k,
                cells@.no_duplicates(),
                forall|c: Coord|
                    cells@.contains(c) <==> self@.contains(c@) && seen.contains(key_of(c@)),
        {
            let (key, chunk) = entry;
            let (chunk_x, chunk_y) = unpack_key(*key);
            let locals = chunk.iter_active();
            let ghost before = cells@;
            proof {
                let i = it.index();
                assert(entries[i] == entry);
                assert(!seen.contains(*key)) by {
                    if seen.contains(*key) {
                        let j = choose|j: int| 0 <= j < i && *(#[trigger] entries[j]).0 == *key;
                        assert(entries[j] == entries[i]);
                    }
                }
                lemma_unpack_pack(*key as int);
            }
            let mut j: usize = 0;
            while j < locals.len()
                invariant
                    self.wf(),
                    j <= locals.len(),
                    self.chunks@.contains_key(*key),
                    self.chunks@[*key] == *chunk,
                    (chunk_x as int, chunk_y as int) == unpack(*key as int),
                    pack(unpack(*key as int)) == *key,
                    locals@.no_duplicates(),
                    forall|l: (i32, i32)|
                        locals@.contains(l) <==> chunk@.contains((l.0 as int, l.1 as int)),
                    cells@.len() == before.len() + j,
                    cells@.subrange(0, before.len() as int) == before,
                    forall|n: int|
                        0 <= n < j ==> (#[trigger] cells@[before.len() + n])@ == compose(
                            unpack(*key as int),
                            (locals@[n].0 as int, locals@[n].1 as int),
                        ),
                decreases locals.len() - j,
            {
                let (local_x, local_y) = locals[j];
                proof {
                    assert(locals@.contains(locals@[j as int]));
                    lemma_compose(unpack(*key as int), (local_x as int, local_y as int));
                }
                cells.push(
                    Coord::new(chunk_x * CHUNK_SIZE + local_x, chunk_y * CHUNK_SIZE + local_y),
                );
                j = j + 1;
            }
            proof {
                let c = unpack(*key as int);
                let old_seen = seen;
                seen = seen.insert(*key);
                assert forall|a: int, b: int|
                    0 <= a < cells@.len() && 0 <= b < cells@.len() && a != b implies cells@[a]
                    != cells@[b] by {
                    let m = before.len() as int;
                    if a < m && b < m {
                        assert(before[a] == cells@[a] && before[b] == cells@[b]);
                    } else if a >= m && b >= m {
                        assert(locals@.contains(locals@[a - m]));
                        assert(locals@.contains(locals@[b - m]));
                        lemma_compose(c, (locals@[a - m].0 as int, locals@[a - m].1 as int));
                        lemma_compose(c, (locals@[b - m].0 as int, locals@[b - m].1 as int));
                        assert(cells@[m + (a - m)]@ != cells@[m + (b - m)]@);
                    } else {
                        let (lo, hi) = if a < m {
                            (a, b)
                        } else {
                            (b, a)
                        };
                        assert(before[lo] == cells@[lo]);
                        assert(before.contains(cells@[lo]));
                        assert(locals@.contains(locals@[hi - m]));
                        lemma_compose(c, (locals@[hi - m].0 as int, locals@[hi - m].1 as int));
                        assert(key_of(cells@[m + (hi - m)]@) == *key);
                    }
                }
                assert forall|q: Coord| cells@.contains(q) implies self@.contains(q@)
                    && seen.contains(key_of(q@)) by {
                    let a = choose|a: int| 0 <= a < cells@.len() && cells@[a] == q;
                    let m = before.len() as int;
                    if a < m {
                        assert(before[a] == cells@[a]);
                        assert(before.contains(q));
                    } else {
                        assert(locals@.contains(locals@[a - m]));
                        lemma_compose(c, (locals@[a - m].0 as int, locals@[a - m].1 as int));
                        assert(cells@[m + (a - m)]@ == q@);
                    }
                }
                assert forall|q: Coord|
                    self@.contains(q@) && seen.contains(key_of(q@)) implies cells@.contains(q) by {
                    let m = before.len() as int;
                    if old_seen.contains(key_of(q@)) {
                        assert(before.contains(q));
                        let a = choose|a: int| 0 <= a < before.len() && before[a] == q;
                        assert(cells@[a] == before[a]);
                    } else {
                        lemma_decompose(q@);
                        let l = local_of(q@, CHUNK_SIZE as int);
                        let local = (l.0 as i32, l.1 as i32);
                        assert(locals@.contains(local));
                        let n = choose|n: int| 0 <= n < locals@.len() && locals@[n] == local;
                        assert(cells@[m + n]@ == q@);
                        assert(cells@[m + n] == q);
                    }
                }
            }
        }
        proof {
            assert forall|q: Coord| self@.contains(q@) implies seen.contains(key_of(q@)) by {
                let k = key_of(q@);
                assert(entries.contains((&k, &self.chunks@[k])));
            }
        }
        cells
    }

    /// The corners of the smallest box that holds every live cell, the least
    /// components first; nothing for a world without a live cell.
    pub fn get_bounds(&self) -> (bounds: Option<(Coord, Coord)>)
        ensures
            bounds.is_none() <==> self@.is_empty(),
            match bounds {
                Some((lo, hi)) => is_bounding_box(self@, lo@, hi@),
                None => true,
            },
    {
        let cells = self.iter_active_cells();
        if cells.len() == 0 {
            proof {
                assert forall|p: Point| !self@.contains(p) by {
                    if self@.contains(p) {
                        self.lemma_view_finite();
                        let c = Coord { x: p.0 as i32, y: p.1 as i32 };
                        assert(c@ == p);
                        assert(cells@.contains(c));
                    }
                }
                assert(self@ =~= Set::<Point>::empty());
            }
            return None;
        }
        let mut min_x = cells[0].x;
        let mut max_x = cells[0].x;
        let mut min_y = cells[0].y;
        let mut max_y = cells[0].y;
        let mut i: usize = 1;
        while i < cells.len()
            invariant
                1 <= i <= cells.len(),
                forall|j: int|
                    0 <= j < i ==> min_x <= (#[trigger] cells@[j]).x <= max_x && min_y
                        <= cells@[j].y <= max_y,
                exists|j: int| 0 <= j < i && (#[trigger] cells@[j]).x == min_x,
                exists|j: int| 0 <= j < i && (#[trigger] cells@[j]).x == max_x,
                exists|j: int| 0 <= j < i && (#[trigger] cells@[j]).y == min_y,
                exists|j: int| 0 <= j < i && (#[trigger] cells@[j]).y == max_y,
            decreases cells.len() - i,
        {
            let c = cells[i];
            if c.x < min_x {
                min_x = c.x;
            }
            if c.x > max_x {
                max_x = c.x;
            }
            if c.y < min_y {
                min_y = c.y;
            }
            if c.y > max_y {
                max_y = c.y;
            }
            i = i + 1;
        }
        let lo = Coord::new(min_x, min_y);
        let hi = Coord::new(max_x, max_y);
        proof {
            assert(cells@.contains(cells@[0]));
            assert(self@.contains(cells@[0]@));
            assert forall|p: Point| self@.contains(p) implies lo@.0 <= p.0 <= hi@.0 && lo@.1 <= p.1
                <= hi@.1 by {
                self.lemma_view_finite();
                let c = Coord { x: p.0 as i32, y: p.1 as i32 };
                assert(c@ == p);
                assert(cells@.contains(c));
            }
            let a = choose|j: int| 0 <= j < i && (#[trigger] cells@[j]).x == min_x;
            let b = choose|j: int| 0 <= j < i && (#[trigger] cells@[j]).y == min_y;
            let c = choose|j: int| 0 <= j < i && (#[trigger] cells@[j]).x == max_x;
            let d = choose|j: int| 0 <= j < i && (#[trigger] cells@[j]).y == max_y;
            assert(cells@.contains(cells@[a]));
            assert(self@.contains(cells@[a]@));
            assert(cells@.contains(cells@[b]));
            assert(self@.contains(cells@[b]@));
            assert(cells@.contains(cells@[c]));
            assert(self@.contains(cells@[c]@));
            assert(cells@.contains(cells@[d]));
            assert(self@.contains(cells@[d]@));
        }
        Some((lo, hi))
    }

    /// The number of live cells among the eight Moore neighbours of `coord`. A
    /// neighbour that the lattice does not hold is dead.
    pub fn count_neighbors(&self, coord: Coord) -> (count: u8)
        ensures
            count == live_neighbors(self@, coord@),
            count <= 8,
    {
        let mut count: u8 = 0;
        let mut k: usize = 0;
        while k < 8
            invariant
                k <= 8,
                count <= k,
                count == live_among(self@, coord@, k as nat),
            decreases 8 - k,
        {
            proof {
                self.lemma_view_finite();
            }
            match coord.neighbor_at(k) {
                Some(n) => {
                    if self.get_cell(n) {
                        count = count + 1;
                    }
                },
                None => {},
            }
            k = k + 1;
        }
        proof {
            lemma_live_among_all(self@, coord@);
        }
        count
    }

    /// The live cells whose chunk is registered under one of `keys`.
    spec fn cells_under(&self, keys: Set<u64>) -> Set<Point> {
        self@.filter(|p: Point| keys.contains(key_of(p)))
    }

    /// The live cells of one chunk are its places, carried into the lattice.
    proof fn lemma_cells_of_chunk(&self, k: u64)
        requires
            self.chunks@.contains_key(k),
        ensures
            self.cells_under(set![k]).subset_of(
                self.chunks@[k]@.map(|l: Point| compose(unpack(k as int), l)),
            ),
            self.wf() ==> self.cells_under(set![k]) == self.chunks@[k]@.map(
                |l: Point| compose(unpack(k as int), l),
            ) && self.cells_under(set![k]).len() == self.chunks@[k]@.len(),
            self.cells_under(set![k]).finite(),
    {
        let c = unpack(k as int);
        let h = |l: Point| compose(c, l);
        let locals = self.chunks@[k]@;
        let under = self.cells_under(set![k]);
        self.chunks@[k].lemma_view_finite();
        locals.lemma_map_finite(h);
        assert forall|p: Point| under.contains(p) implies locals.map(h).contains(p) by {
            lemma_decompose(p);
            assert(key_of(p) == k);
            assert(locals.contains(local_of(p, CHUNK_SIZE as int)));
            assert(h(local_of(p, CHUNK_SIZE as int)) == p);
        }
        vstd::set_lib::lemma_set_subset_finite(locals.map(h), under);
        if self.wf() {
            lemma_unpack_pack(k as int);
            assert forall|p: Point| locals.map(h).contains(p) implies under.contains(p) by {
                let l = choose|l: Point| locals.contains(l) && p == h(l);
                lemma_compose(c, l);
            }
            assert(under =~= locals.map(h));
            assert(vstd::relations::injective_on(h, locals)) by {
                assert forall|a: Point, b: Point|
                    locals.contains(a) && locals.contains(b) && #[trigger] h(a) == #[trigger] h(
                        b,
                    ) implies a == b by {
                    lemma_compose(c, a);
                    lemma_compose(c, b);
                }
            }
            vstd::set_lib::lemma_map_size(locals, under, h);
        }
    }

    /// The live cells under finitely many keys are finitely many.
    proof fn lemma_cells_under_finite(&self, keys: Set<u64>)
        requires
            keys.finite(),
        ensures
            self.cells_under(keys).finite(),
        decreases keys.len(),
    {
        if keys.is_empty() {
            assert(self.cells_under(keys) =~= Set::<Point>::empty());
        } else {
            let k = keys.choose();
            self.lemma_cells_under_finite(keys.remove(k));
            if self.chunks@.contains_key(k) {
                self.lemma_cells_of_chunk(k);
                assert(self.cells_under(keys) =~= self.cells_under(keys.remove(k)).union(
                    self.cells_under(set![k]),
                ));
            } else {
                assert(self.cells_under(keys) =~= self.cells_under(keys.remove(k)));
            }
        }
    }

    /// A further chunk adds its cells, and no others, to those counted so far.
    proof fn lemma_cells_under_insert(&self, seen: Set<u64>, k: u64)
        requires
            self.wf(),
            seen.finite(),
            !seen.contains(k),
            self.chunks@.contains_key(k),
        ensures
            self.cells_under(seen.insert(k)).finite(),
            self.cells_under(seen.insert(k)).len() == self.cells_under(seen).len()
                + self.chunks@[k]@.len(),
    {
        self.lemma_cells_under_finite(seen);
        self.lemma_cells_of_chunk(k);
        let a = self.cells_under(seen);
        let b = self.cells_under(set![k]);
        assert(a.disjoint(b));
        vstd::set_lib::lemma_set_disjoint_lens(a, b);
        assert(self.cells_under(seen.insert(k)) =~= a + b);
    }

    /// A world holds finitely many cells, all of them in the lattice.
    pub proof fn lemma_view_finite(&self)
        ensures
            self@.finite(),
            forall|p: Point| self@.contains(p) ==> in_lattice(p),
    {
        self.lemma_cells_under_finite(self.chunks@.dom());
        assert(self@ =~= self.cells_under(self.chunks@.dom()));
    }

    /// The registered chunks are the occupied ones, one key for each.
    proof fn lemma_registered(&self)
        requires
            self.wf(),
        ensures
            occupied_chunks(self@).finite(),
            occupied_chunks(self@).len() == self.chunks@.dom().len(),
            occupied_chunks(self@) == self.chunks@.dom().map(|k: u64| unpack(k as int)),
    {
        let dom = self.chunks@.dom();
        let f = |k: u64| unpack(k as int);
        let occupied = occupied_chunks(self@);
        assert forall|c: Point| occupied.contains(c) implies dom.map(f).contains(c) by {
            let p = choose|p: Point| self@.contains(p) && c == chunk_of(p, CHUNK_SIZE as int);
            lemma_decompose(p);
            assert(dom.contains(key_of(p)) && f(key_of(p)) == c);
        }
        assert forall|c: Point| dom.map(f).contains(c) implies occupied.contains(c) by {
            let k = choose|k: u64| dom.contains(k) && c == f(k);
            assert(self.chunks@.contains_key(k));
            let l = choose|l: Point| self.chunks@[k]@.contains(l);
            lemma_compose(c, l);
            lemma_unpack_pack(k as int);
            assert(self@.contains(compose(c, l)));
        }
        assert(occupied =~= dom.map(f));
        assert(vstd::relations::injective_on(f, dom)) by {
            assert forall|a: u64, b: u64| #[trigger] f(a) == #[trigger] f(b) implies a == b by {
                lemma_unpack_pack(a as int);
                lemma_unpack_pack(b as int);
            }
        }
        vstd::set_lib::lemma_map_size(dom, occupied, f);
    }
}

impl Default for World {
    fn default() -> (w: Self)
        ensures
            w@ == Set::<Point>::empty(),
    {
        Self::new()
    }
}

impl Clone for World {
    /// An independent copy with the same live cells.
    fn clone(&self) -> (w: Self)
        ensures
            w@ == self@,
    {
        proof {
            use_type_invariant(self);
        }
        let w = Self { chunks: self.chunks.clone() };
        assert(w@ =~= self@);
        w
    }
}

} // verus!
