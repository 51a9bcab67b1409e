use super::coord::{in_lattice, Point};
use vstd::prelude::*;

verus! {

/// The number of values of one lattice component.
pub open spec fn side() -> int {
    0x1_0000_0000
}

/// The hash key of a lattice point: its components, shifted to be non-negative,
/// as the two halves of a 64-bit number. Every key belongs to exactly one point.
pub open spec fn pack(p: Point) -> int {
    (p.0 - i32::MIN) * side() + (p.1 - i32::MIN)
}

/// The point that a key stands for.
pub open spec fn unpack(k: int) -> Point {
    (k / side() + i32::MIN, k % side() + i32::MIN)
}

/// The key of a lattice point fits in 64 bits and stands for that point.
pub proof fn lemma_pack_unpack(p: Point)
    requires
        in_lattice(p),
    ensures
        0 <= pack(p) <= u64::MAX,
        unpack(pack(p)) == p,
{
    let hi = p.0 - i32::MIN;
    let lo = p.1 - i32::MIN;
    assert(0 <= hi < side() && 0 <= lo < side());
    vstd::arithmetic::div_mod::lemma_fundamental_div_mod_converse(pack(p), side(), hi, lo);
}

/// Every 64-bit key is the key of the lattice point that it stands for.
pub proof fn lemma_unpack_pack(k: int)
    requires
        0 <= k <= u64::MAX,
    ensures
        in_lattice(unpack(k)),
        pack(unpack(k)) == k,
{
    vstd::arithmetic::div_mod::lemma_fundamental_div_mod(k, side());
}

/// The key of `(x, y)`.
pub fn pack_key(x: i32, y: i32) -> (k: u64)
    ensures
        k == pack((x as int, y as int)),
{
    let hi: u64 = (x as i64 - i32::MIN as i64) as u64;
    let lo: u64 = (y as i64 - i32::MIN as i64) as u64;
    hi * 0x1_0000_0000 + lo
}

/// The point of the key `k`.
pub fn unpack_key(k: u64) -> (c: (i32, i32))
    ensures
        (c.0 as int, c.1 as int) == unpack(k as int),
{
    let hi: u64 = k / 0x1_0000_0000;
    let lo: u64 = k % 0x1_0000_0000;
    ((hi as i64 + i32::MIN as i64) as i32, (lo as i64 + i32::MIN as i64) as i32)
}

} // verus!
