use vstd::prelude::*;

verus! {

/// A point of the unbounded plane: the mathematical model of a coordinate.
pub type Point = (int, int);

/// The points that a `Coord` can name.
pub open spec fn in_lattice(p: Point) -> bool {
    i32::MIN <= p.0 <= i32::MAX && i32::MIN <= p.1 <= i32::MAX
}

/// The points all of whose Moore neighbours can be named by a `Coord`.
pub open spec fn in_interior(p: Point) -> bool {
    i32::MIN < p.0 < i32::MAX && i32::MIN < p.1 < i32::MAX
}

/// Two distinct points that differ by at most one in each direction.
pub open spec fn adjacent(p: Point, q: Point) -> bool {
    p != q && -1 <= q.0 - p.0 <= 1 && -1 <= q.1 - p.1 <= 1
}

/// The eight steps of the Moore neighbourhood, row by row from the upper left.
pub open spec fn moore_offset(k: int) -> Point {
    if k == 0 {
        (-1, -1)
    } else if k == 1 {
        (0, -1)
    } else if k == 2 {
        (1, -1)
    } else if k == 3 {
        (-1, 0)
    } else if k == 4 {
        (1, 0)
    } else if k == 5 {
        (-1, 1)
    } else if k == 6 {
        (0, 1)
    } else {
        (1, 1)
    }
}

/// The `k`-th Moore neighbour of `p`, for `k` from 0 to 7.
pub open spec fn neighbor(p: Point, k: int) -> Point {
    (p.0 + moore_offset(k).0, p.1 + moore_offset(k).1)
}

/// The chunk that holds `p` when the plane is cut into squares of side `n`:
/// the floor of each component over `n`.
pub open spec fn chunk_of(p: Point, n: int) -> Point {
    (p.0 / n, p.1 / n)
}

/// The place of `p` inside its chunk of side `n`: the floored remainders.
pub open spec fn local_of(p: Point, n: int) -> Point {
    (p.0 % n, p.1 % n)
}

/// The eight Moore neighbours are pairwise distinct, and a point is adjacent to `p`
/// exactly when it is one of them.
pub proof fn lemma_neighbors_are_the_adjacent_points(p: Point)
    ensures
        forall|i: int, j: int|
            0 <= i < 8 && 0 <= j < 8 && i != j ==> #[trigger] neighbor(p, i) != #[trigger] neighbor(
                p,
                j,
            ),
        forall|k: int| 0 <= k < 8 ==> adjacent(p, #[trigger] neighbor(p, k)),
        forall|q: Point|
            adjacent(p, q) ==> exists|k: int| 0 <= k < 8 && #[trigger] neighbor(p, k) == q,
{
    assert forall|q: Point| adjacent(p, q) implies exists|k: int|
        0 <= k < 8 && #[trigger] neighbor(p, k) == q by {
        let dx = q.0 - p.0;
        let dy = q.1 - p.1;
        let k: int = if dy == -1 {
            dx + 1
        } else if dy == 0 {
            if dx == -1 {
                3
            } else {
                4
            }
        } else {
            dx + 6
        };
        assert(neighbor(p, k) == q);
    }
}

/// Adjacency is symmetric: `q` is the `k`-th neighbour of `p` exactly when `p` is the
/// neighbour of `q` in the opposite direction.
pub proof fn lemma_neighbor_symmetric(p: Point, k: int)
    requires
        0 <= k < 8,
    ensures
        neighbor(neighbor(p, k), 7 - k) == p,
{
}

/// Chunk and local coordinate together give the point back, the local coordinate lies
/// in `[0, n)`, and no other pair does so: the division is floored, not truncated.
pub proof fn lemma_chunk_local_inverse(p: Point, n: int)
    requires
        n > 0,
    ensures
        chunk_of(p, n).0 * n + local_of(p, n).0 == p.0,
        chunk_of(p, n).1 * n + local_of(p, n).1 == p.1,
        0 <= local_of(p, n).0 < n,
        0 <= local_of(p, n).1 < n,
        forall|c: Point, l: Point|
            0 <= l.0 < n && 0 <= l.1 < n && c.0 * n + l.0 == p.0 && c.1 * n + l.1 == p.1 ==> c
                == chunk_of(p, n) && l == local_of(p, n),
{
    vstd::arithmetic::div_mod::lemma_fundamental_div_mod(p.0, n);
    vstd::arithmetic::div_mod::lemma_fundamental_div_mod(p.1, n);
    vstd::arithmetic::div_mod::lemma_mod_bound(p.0, n);
    vstd::arithmetic::div_mod::lemma_mod_bound(p.1, n);
    assert(n * (p.0 / n) == (p.0 / n) * n) by (nonlinear_arith);
    assert(n * (p.1 / n) == (p.1 / n) * n) by (nonlinear_arith);
    assert forall|c: Point, l: Point|
        0 <= l.0 < n && 0 <= l.1 < n && c.0 * n + l.0 == p.0 && c.1 * n + l.1 == p.1 implies c
        == chunk_of(p, n) && l == local_of(p, n) by {
        vstd::arithmetic::div_mod::lemma_fundamental_div_mod_converse(p.0, n, c.0, l.0);
        vstd::arithmetic::div_mod::lemma_fundamental_div_mod_converse(p.1, n, c.1, l.1);
    }
}

/// A lattice coordinate.
#[derive(Debug, Clone, Copy, PartialEq, Eq, Hash, Structural)]
pub struct Coord {
    pub x: i32,
    pub y: i32,
}

impl View for Coord {
    type V = Point;

    open spec fn view(&self) -> Point {
        (self.x as int, self.y as int)
    }
}

impl Coord {
    pub fn new(x: i32, y: i32) -> (c: Self)
        ensures
            c.x == x,
            c.y == y,
    {
        Self { x, y }
    }

    /// The chunk that holds this coordinate, for chunks of side `chunk_size`.
    pub fn chunk_coord(&self, chunk_size: i32) -> (c: (i32, i32))
        requires
            chunk_size > 0,
        ensures
            (c.0 as int, c.1 as int) == chunk_of(self@, chunk_size as int),
    {
        proof {
            lemma_floor_div_fits(self.x as int, chunk_size as int);
            lemma_floor_div_fits(self.y as int, chunk_size as int);
        }
        (floor_div(self.x, chunk_size), floor_div(self.y, chunk_size))
    }

    /// The place of this coordinate inside its chunk, each component in `[0, chunk_size)`.
    pub fn local_coord(&self, chunk_size: i32) -> (l: (i32, i32))
        requires
            chunk_size > 0,
        ensures
            (l.0 as int, l.1 as int) == local_of(self@, chunk_size as int),
            0 <= l.0 < chunk_size,
            0 <= l.1 < chunk_size,
    {
        (floor_rem(self.x, chunk_size), floor_rem(self.y, chunk_size))
    }

    /// The eight Moore neighbours, row by row from the upper left.
    pub fn neighbors(&self) -> (ns: [Coord; 8])
        requires
            in_interior(self@),
        ensures
            forall|k: int| 0 <= k < 8 ==> (#[trigger] ns[k])@ == neighbor(self@, k),
            ns@.no_duplicates(),
            forall|q: Coord| adjacent(self@, q@) <==> ns@.contains(q),
    {
        let ns = [
            Coord::new(self.x - 1, self.y - 1),
            Coord::new(self.x, self.y - 1),
            Coord::new(self.x + 1, self.y - 1),
            Coord::new(self.x - 1, self.y),
            Coord::new(self.x + 1, self.y),
            Coord::new(self.x - 1, self.y + 1),
            Coord::new(self.x, self.y + 1),
            Coord::new(self.x + 1, self.y + 1),
        ];
        proof {
            lemma_neighbors_are_the_adjacent_points(self@);
            assert forall|q: Coord| adjacent(self@, q@) implies ns@.contains(q) by {
                let k = choose|k: int| 0 <= k < 8 && #[trigger] neighbor(self@, k) == q@;
                assert(ns@[k]@ == q@);
                assert(ns@[k] == q);
            }
            assert forall|q: Coord| ns@.contains(q) implies adjacent(self@, q@) by {
                let k = choose|k: int| 0 <= k < 8 && ns@[k] == q;
                assert(ns[k]@ == neighbor(self@, k));
            }
        }
        ns
    }

    /// The `k`-th Moore neighbour, where the lattice has one.
    pub fn neighbor_at(&self, k: usize) -> (n: Option<Coord>)
        requires
            k < 8,
        ensures
            in_lattice(neighbor(self@, k as int)) ==> n.is_some() && n.unwrap()@ == neighbor(
                self@,
                k as int,
            ),
            !in_lattice(neighbor(self@, k as int)) ==> n.is_none(),
    {
        let dx: i32 = if k == 0 || k == 3 || k == 5 {
            -1
        } else if k == 1 || k == 6 {
            0
        } else {
            1
        };
        let dy: i32 = if k < 3 {
            -1
        } else if k < 5 {
            0
        } else {
            1
        };
        match (self.x.checked_add(dx), self.y.checked_add(dy)) {
            (Some(x), Some(y)) => Some(Coord::new(x, y)),
            _ => None,
        }
    }
}

/// Componentwise sum. The sum has to lie in the lattice.
impl core::ops::Add for Coord {
    type Output = Coord;

    fn add(self, other: Coord) -> (sum: Coord) {
        Coord { x: self.x + other.x, y: self.y + other.y }
    }
}

impl vstd::std_specs::ops::AddSpecImpl for Coord {
    open spec fn obeys_add_spec() -> bool {
        true
    }

    open spec fn add_req(self, other: Coord) -> bool {
        in_lattice((self.x + other.x, self.y + other.y))
    }

    open spec fn add_spec(self, other: Coord) -> Coord {
        Coord { x: (self.x + other.x) as i32, y: (self.y + other.y) as i32 }
    }
}

/// Componentwise difference. The difference has to lie in the lattice.
impl core::ops::Sub for Coord {
    type Output = Coord;

    fn sub(self, other: Coord) -> (diff: Coord) {
        Coord { x: self.x - other.x, y: self.y - other.y }
    }
}

impl vstd::std_specs::ops::SubSpecImpl for Coord {
    open spec fn obeys_sub_spec() -> bool {
        true
    }

    open spec fn sub_req(self, other: Coord) -> bool {
        in_lattice((self.x - other.x, self.y - other.y))
    }

    open spec fn sub_spec(self, other: Coord) -> Coord {
        Coord { x: (self.x - other.x) as i32, y: (self.y - other.y) as i32 }
    }
}

/// The floor of `a / n` fits where `a` does.
pub proof fn lemma_floor_div_fits(a: int, n: int)
    requires
        n > 0,
        i32::MIN <= a <= i32::MAX,
    ensures
        i32::MIN <= a / n <= i32::MAX,
{
    vstd::arithmetic::div_mod::lemma_fundamental_div_mod(a, n);
    vstd::arithmetic::div_mod::lemma_mod_bound(a, n);
    let q = a / n;
    if a >= 0 {
        assert(q >= 0 && q <= a) by (nonlinear_arith)
            requires
                a == n * q + a % n,
                0 <= a % n < n,
                n > 0,
                a >= 0,
        ;
    } else {
        assert(q < 0 && q >= a) by (nonlinear_arith)
            requires
                a == n * q + a % n,
                0 <= a % n < n,
                n > 0,
                a < 0,
        ;
    }
}

/// Floored division by a positive divisor.
fn floor_div(a: i32, n: i32) -> (q: i32)
    requires
        n > 0,
    ensures
        q == a as int / n as int,
{
    proof {
        lemma_floor_div_fits(a as int, n as int);
    }
    match a.checked_div_euclid(n) {
        Some(q) => q,
        None => vstd::pervasive::unreached(),
    }
}

/// Floored remainder by a positive divisor.
fn floor_rem(a: i32, n: i32) -> (r: i32)
    requires
        n > 0,
    ensures
        r == a as int % n as int,
        0 <= r < n,
{
    proof {
        vstd::arithmetic::div_mod::lemma_mod_bound(a as int, n as int);
    }
    match a.checked_rem_euclid(n) {
        Some(r) => r,
        None => vstd::pervasive::unreached(),
    }
}

} // verus!
