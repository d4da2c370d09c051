//! Fixed-point world coordinates.
use crate::intersect::{Coords, Vec3i};
use vstd::prelude::*;

verus! {

/// Number of fixed-point steps in one grid unit.
pub const UNIT: i64 = 1_000_000;

/// Half a grid unit: the half-size of a voxel.
pub const HALF_UNIT: i64 = 500_000;

/// Largest magnitude of a triangle vertex coordinate, in fixed-point steps
/// (2^40 steps, about 1.1 million grid units).
pub const COORD_LIMIT: i64 = 1_099_511_627_776;

/// `n` steps expressed in whole grid units, rounded to the nearest unit,
/// halves away from zero.
pub open spec fn rounded_units(n: int) -> int {
    if n >= 0 {
        (n + HALF_UNIT) / (UNIT as int)
    } else {
        -((-n + HALF_UNIT) / (UNIT as int))
    }
}

/// Rounding to whole units moves a value by at most half a unit.
pub proof fn lemma_rounded_units_error(n: int)
    ensures
        -(HALF_UNIT as int) <= n - rounded_units(n) * UNIT <= HALF_UNIT,
        n >= 0 ==> rounded_units(n) >= 0,
        n <= 0 ==> rounded_units(n) <= 0,
{
    if n >= 0 {
        vstd::arithmetic::div_mod::lemma_fundamental_div_mod(n + HALF_UNIT, UNIT as int);
    } else {
        vstd::arithmetic::div_mod::lemma_fundamental_div_mod(-n + HALF_UNIT, UNIT as int);
    }
}

/// Rounding is monotone.
pub proof fn lemma_rounded_units_monotone(n: int, m: int)
    requires
        n <= m,
    ensures
        rounded_units(n) <= rounded_units(m),
{
    lemma_rounded_units_error(n);
    lemma_rounded_units_error(m);
}

/// Rounding a whole number of units gives it back.
pub proof fn lemma_rounded_units_exact(k: int)
    ensures
        rounded_units(k * UNIT) == k,
{
    lemma_rounded_units_error(k * UNIT);
}

/// Rounds `n` steps to whole grid units, halves away from zero.
pub fn round_units(n: i128) -> (r: i128)
    requires
        -0x4000_0000_0000_0000_0000_0000_0000_0000 <= n <= 0x4000_0000_0000_0000_0000_0000_0000_0000,
    ensures
        r == rounded_units(n as int),
{
    if n >= 0 {
        (n + HALF_UNIT as i128) / (UNIT as i128)
    } else {
        -((-n + HALF_UNIT as i128) / (UNIT as i128))
    }
}

/// A point of world space; each coordinate counts fixed-point steps of
/// `1 / UNIT` grid units.
#[derive(Clone, Copy, Debug, PartialEq, Eq, Structural)]
pub struct WorldVector {
    pub x: i64,
    pub y: i64,
    pub z: i64,
}

impl View for WorldVector {
    type V = Coords;

    open spec fn view(&self) -> Coords {
        (self.x as int, self.y as int, self.z as int)
    }
}

impl WorldVector {
    pub fn new(x: i64, y: i64, z: i64) -> (r: Self)
        ensures
            r == (WorldVector { x, y, z }),
    {
        WorldVector { x, y, z }
    }

    /// The point whose coordinates are the given whole numbers of grid units.
    pub fn from_units(x: i64, y: i64, z: i64) -> (r: Self)
        requires
            -9_223_372_036_854 <= x <= 9_223_372_036_854,
            -9_223_372_036_854 <= y <= 9_223_372_036_854,
            -9_223_372_036_854 <= z <= 9_223_372_036_854,
        ensures
            r.x == x * UNIT,
            r.y == y * UNIT,
            r.z == z * UNIT,
    {
        WorldVector { x: x * UNIT, y: y * UNIT, z: z * UNIT }
    }

    pub fn to_vec3i(&self) -> (r: Vec3i)
        ensures
            r@ == self@,
    {
        Vec3i::new(self.x as i128, self.y as i128, self.z as i128)
    }

    /// Every coordinate has magnitude at most `limit`.
    pub open spec fn within(self, limit: int) -> bool {
        &&& -limit <= self.x <= limit
        &&& -limit <= self.y <= limit
        &&& -limit <= self.z <= limit
    }
}

} // verus!
