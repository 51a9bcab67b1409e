use super::coord::{in_lattice, Point};
use super::key::{lemma_pack_unpack, lemma_unpack_pack, pack, pack_key, unpack, unpack_key};
use std::collections::HashSet;
use vstd::prelude::*;
use vstd::std_specs::iter::IteratorSpec;

verus! {

broadcast use vstd::std_specs::hash::group_hash_axioms;

/// The side of the squares into which a world cuts the plane.
pub const CHUNK_SIZE: i32 = 64;

/// The point that a pair of components names.
pub open spec fn point_of(c: (i32, i32)) -> Point {
    (c.0 as int, c.1 as int)
}

/// A set of live cells, each named by a pair of components.
#[derive(Debug)]
pub struct Chunk {
    active_cells: HashSet<u64>,
}

impl View for Chunk {
    type V = Set<Point>;

    closed spec fn view(&self) -> Set<Point> {
        Set::new(|p: Point| in_lattice(p) && self.active_cells@.contains(pack(p) as u64))
    }
}

impl Chunk {
    /// A chunk without a live cell.
    pub fn new() -> (c: Self)
        ensures
            c@ == Set::<Point>::empty(),
    {
        Self { active_cells: HashSet::new() }
    }

    /// Whether the cell at `(x, y)` is alive. A cell that was never set is dead.
    pub fn get_cell(&self, x: i32, y: i32) -> (alive: bool)
        ensures
            alive == self@.contains((x as int, y as int)),
    {
        let k = pack_key(x, y);
        self.active_cells.contains(&k)
    }

    /// Makes the cell at `(x, y)` alive or dead, and changes no other cell.
    pub fn set_cell(&mut self, x: i32, y: i32, alive: bool)
        ensures
            alive ==> final(self)@ == old(self)@.insert((x as int, y as int)),
            !alive ==> final(self)@ == old(self)@.remove((x as int, y as int)),
    {
        let k = pack_key(x, y);
        if alive {
            self.active_cells.insert(k);
        } else {
            self.active_cells.remove(&k);
        }
        proof {
            let p = (x as int, y as int);
            assert forall|q: Point| in_lattice(q) && q != p implies pack(q) as u64 != k by {
                lemma_pack_unpack(q);
                lemma_pack_unpack(p);
            }
            lemma_pack_unpack(p);
            if alive {
                assert(self@ =~= old(self)@.insert(p));
            } else {
                assert(self@ =~= old(self)@.remove(p));
            }
        }
    }

    /// Whether no cell is alive.
    pub fn is_empty(&self) -> (empty: bool)
        ensures
            empty == self@.is_empty(),
            empty == (self@.len() == 0),
    {
        proof {
            self.lemma_view();
            vstd::set_lib::lemma_set_empty_equivalency_len(self@);
        }
        self.active_cells.is_empty()
    }

    /// The number of live cells.
    pub fn active_count(&self) -> (count: usize)
        ensures
            count == self@.len(),
    {
        proof {
            self.lemma_view();
        }
        self.active_cells.len()
    }

    /// Removes every cell.
    pub fn clear(&mut self)
        ensures
            final(self)@ == Set::<Point>::empty(),
    {
        self.active_cells.clear();
        assert(self@ =~= Set::<Point>::empty());
    }

    /// A chunk holds finitely many cells, all of them in the lattice.
    pub proof fn lemma_view_finite(&self)
        ensures
            self@.finite(),
            forall|p: Point| self@.contains(p) ==> in_lattice(p),
    {
        self.lemma_view();
    }

    /// The cells are the points of the keys, one for one.
    proof fn lemma_view(&self)
        ensures
            self@.finite(),
            self@.len() == self.active_cells@.len(),
            self@.is_empty() == self.active_cells@.is_empty(),
            forall|p: Point| self@.contains(p) ==> in_lattice(p),
    {
        let keys = self.active_cells@;
        let f = |k: u64| unpack(k as int);
        let all = vstd::std_specs::hash::spec_hash_keys_iter(&self.active_cells).remaining();
        assert(all.unref().to_set() == keys);
        vstd::seq_lib::seq_to_set_is_finite(all.unref());
        assert forall|p: Point| self@.contains(p) <==> keys.map(f).contains(p) by {
            if self@.contains(p) {
                lemma_pack_unpack(p);
                assert(keys.contains(pack(p) as u64) && f(pack(p) as u64) == p);
            }
            if keys.map(f).contains(p) {
                let k = choose|k: u64| keys.contains(k) && p == f(k);
                lemma_unpack_pack(k as int);
            }
        }
        assert(self@ =~= keys.map(f));
        assert(vstd::relations::injective_on(f, keys)) by {
            assert forall|a: u64, b: u64| #[trigger] f(a) == #[trigger] f(b) implies a == b by {
                lemma_unpack_pack(a as int);
                lemma_unpack_pack(b as int);
            }
        }
        vstd::set_lib::lemma_map_size(keys, self@, f);
        if keys.is_empty() {
            assert(self@.len() == 0);
            self@.lemma_len0_is_empty();
        } else {
            let k = keys.choose();
            assert(keys.contains(k));
            assert(self@.contains(f(k)));
        }
    }

    /// The live cells, each once, in no particular order.
    pub fn iter_active(&self) -> (cells: Vec<(i32, i32)>)
        ensures
            cells@.no_duplicates(),
            forall|c: (i32, i32)| cells@.contains(c) <==> self@.contains(point_of(c)),
    {
        let mut cells: Vec<(i32, i32)> = Vec::new();
        let ghost keys = self.active_cells.iter().remaining().unref();
        for k in it: self.active_cells.iter()
            invariant
                cells@.len() == it.index(),
                it.seq().unref() == keys,
                keys.no_duplicates(),
                keys.to_set() == self.active_cells@,
                forall|i: int|
                    0 <= i < cells@.len() ==> point_of(#[trigger] cells@[i]) == unpack(
                        keys[i] as int,
                    ),
        {
            cells.push(unpack_key(*k));
        }
        proof {
            assert forall|c: (i32, i32)| cells@.contains(c) implies self@.contains(
                point_of(c),
            ) by {
                let i = choose|i: int| 0 <= i < cells@.len() && cells@[i] == c;
                lemma_unpack_pack(keys[i] as int);
                assert(keys.to_set().contains(keys[i]));
            }
            assert forall|c: (i32, i32)| self@.contains(point_of(c)) implies cells@.contains(
                c,
            ) by {
                let k = pack(point_of(c)) as u64;
                lemma_pack_unpack(point_of(c));
                assert(keys.to_set().contains(k));
                let i = choose|i: int| 0 <= i < keys.len() && keys[i] == k;
                assert(point_of(cells@[i]) == point_of(c));
                assert(cells@[i] == c);
            }
        }
        cells
    }
}

impl Default for Chunk {
    fn default() -> (c: Self)
        ensures
            c@ == Set::<Point>::empty(),
    {
        Self::new()
    }
}

impl Clone for Chunk {
    /// An independent copy with the same live cells.
    fn clone(&self) -> (c: Self)
        ensures
            c@ == self@,
    {
        let mut active_cells: HashSet<u64> = HashSet::new();
        for k in it: self.active_cells.iter()
            invariant
                forall|j: int| 0 <= j < it.index() ==> active_cells@.contains(*it.seq()[j]),
                forall|key: u64| active_cells@.contains(key) ==> self.active_cells@.contains(key),
                it.seq().unref().to_set() == self.active_cells@,
        {
            assert(it.seq().unref().to_set().contains(*k));
            active_cells.insert(*k);
        }
        let c = Self { active_cells };
        assert(c@ =~= self@);
        c
    }
}

} // verus!
