//! Axial hex coordinates (pointy-top orientation): neighbor enumeration,
//! cube conversion, distance, and the projection between the hex grid and
//! world space.
//!
//! World space is measured on a fixed-point lattice: a `WorldPos { x, y }`
//! stands for the real point `(x * sqrt(3)/2, y * 1/2)`. On this lattice the
//! standard pointy-top projection of a hex of circumradius `size` lands on
//! integer coordinates: `x = size * (2q + r)`, `y = 3 * size * r`.

use vstd::prelude::*;

verus! {

/// Largest coordinate magnitude the arithmetic here is specified for.
pub const MAX_COORD: i32 = 0x0FFF_FFFF;

/// Largest hex circumradius accepted by the world-space projection.
pub const MAX_HEX_SIZE: i64 = 0x10_0000;

/// Axial hex coordinate.
#[derive(Clone, Copy, PartialEq, Eq, Hash, Debug, Structural)]
pub struct Hex {
    pub q: i32,
    pub r: i32,
}

/// A world-space point on the fixed-point lattice: the real point is
/// `(x * sqrt(3)/2, y / 2)`.
#[derive(Clone, Copy, PartialEq, Eq, Debug, Structural)]
pub struct WorldPos {
    pub x: i64,
    pub y: i64,
}

/// Whether both coordinates are small enough for the hex arithmetic.
pub open spec fn in_bounds(h: Hex) -> bool {
    &&& -MAX_COORD <= h.q <= MAX_COORD
    &&& -MAX_COORD <= h.r <= MAX_COORD
}

/// The neighbor of `h` in direction `dir` (taken modulo 6): starts from the
/// upper-right neighbor and goes clockwise.
pub open spec fn neighbor_spec(h: Hex, dir: int) -> (int, int) {
    let d = dir % 6;
    if d == 0 {
        (h.q + 1, h.r - 1)
    } else if d == 1 {
        (h.q + 1, h.r as int)
    } else if d == 2 {
        (h.q as int, h.r + 1)
    } else if d == 3 {
        (h.q - 1, h.r + 1)
    } else if d == 4 {
        (h.q - 1, h.r as int)
    } else {
        (h.q as int, h.r - 1)
    }
}

/// Whether `b` is one of the six neighbors of `a`.
pub open spec fn is_neighbor(a: Hex, b: Hex) -> bool {
    exists|d: int| 0 <= d < 6 && neighbor_spec(a, d) == (b.q as int, b.r as int)
}

pub open spec fn abs_int(x: int) -> int {
    if x >= 0 {
        x
    } else {
        -x
    }
}

/// Hex distance: half the L1 norm of the difference in cube coordinates.
pub open spec fn distance_spec(a: Hex, b: Hex) -> int {
    let dx = abs_int(a.q - b.q);
    let dz = abs_int(a.r - b.r);
    let dy = abs_int((-a.q - a.r) - (-b.q - b.r));
    (dx + dy + dz) / 2
}

/// The world-space image of `h` for circumradius `size`.
pub open spec fn to_world_spec(h: Hex, size: int) -> (int, int) {
    (size * (2 * h.q + h.r), 3 * size * h.r)
}

/// Rounding to the nearest integer, halves away from zero, of the rational
/// `p / d` (for `d > 0`).
pub open spec fn round_nearest_spec(p: int, d: int) -> int {
    if p >= 0 {
        (2 * p + d) / (2 * d)
    } else {
        -((-(2 * p) + d) / (2 * d))
    }
}

/// Rounding of the fractional axial coordinates `(qn/den, rn/den)` to the
/// nearest hex: round each coordinate, then correct the one with the larger
/// rounding error so the corresponding cube point keeps `x + y + z == 0`.
pub open spec fn axial_round_spec(qn: int, rn: int, den: int) -> (int, int) {
    let rq = round_nearest_spec(qn, den);
    let rr = round_nearest_spec(rn, den);
    let qd = qn - rq * den;
    let rd = rn - rr * den;
    if abs_int(qd) > abs_int(rd) {
        (rq + round_nearest_spec(2 * qd + rd, 2 * den), rr)
    } else {
        (rq, rr + round_nearest_spec(2 * rd + qd, 2 * den))
    }
}

/// The hex whose world-space image is nearest to the lattice point
/// `(x, y)`, for circumradius `size`: the inverse linear transform followed
/// by axial rounding.
pub open spec fn from_world_spec(x: int, y: int, size: int) -> (int, int) {
    axial_round_spec(3 * x - y, 2 * y, 6 * size)
}

/// `round_nearest_spec(p, d)` is within half of `p / d`:
/// `|2 * (p - r * d)| <= d`.
proof fn lemma_round_nearest_half(p: int, d: int)
    requires
        d > 0,
    ensures
        2 * d * round_nearest_spec(p, d) - d <= 2 * p <= 2 * d * round_nearest_spec(p, d) + d,
{
    let r = round_nearest_spec(p, d);
    let dd = 2 * d;
    if p >= 0 {
        let x = 2 * p + d;
        vstd::arithmetic::div_mod::lemma_fundamental_div_mod(x, dd);
        vstd::arithmetic::div_mod::lemma_mod_bound(x, dd);
        assert(x == dd * (x / dd) + x % dd);
        assert(2 * d * r == dd * (x / dd)) by (nonlinear_arith)
            requires
                r == x / dd,
                dd == 2 * d,
        ;
    } else {
        let x = -(2 * p) + d;
        vstd::arithmetic::div_mod::lemma_fundamental_div_mod(x, dd);
        vstd::arithmetic::div_mod::lemma_mod_bound(x, dd);
        assert(x == dd * (x / dd) + x % dd);
        assert(2 * d * r == -(dd * (x / dd))) by (nonlinear_arith)
            requires
                r == -(x / dd),
                dd == 2 * d,
        ;
    }
}

/// Rounding an exact multiple of the denominator recovers the multiplier.
proof fn lemma_round_nearest_exact(n: int, d: int)
    requires
        d > 0,
    ensures
        round_nearest_spec(n * d, d) == n,
{
    lemma_round_nearest_half(n * d, d);
    let r = round_nearest_spec(n * d, d);
    assert(2 * d * r - d <= 2 * (n * d) <= 2 * d * r + d);
    assert(2 * d * (n - r) <= d && -d <= 2 * d * (n - r)) by (nonlinear_arith)
        requires
            d > 0,
            2 * d * r - d <= 2 * (n * d) <= 2 * d * r + d,
    ;
    assert(n == r) by (nonlinear_arith)
        requires
            d > 0,
            2 * d * (n - r) <= d,
            -d <= 2 * d * (n - r),
    ;
}

/// Exact coordinates round to themselves: the round trip through world
/// space returns the hex it started from.
pub proof fn lemma_from_world_to_world(h: Hex, size: int)
    requires
        size > 0,
    ensures
        from_world_spec(to_world_spec(h, size).0, to_world_spec(h, size).1, size) == (
            h.q as int,
            h.r as int,
        ),
{
    let x = size * (2 * h.q + h.r);
    let y = 3 * size * h.r;
    let den = 6 * size;
    assert(3 * x - y == h.q * den) by (nonlinear_arith)
        requires
            x == size * (2 * h.q + h.r),
            y == 3 * size * h.r,
            den == 6 * size,
    ;
    assert(2 * y == h.r * den) by (nonlinear_arith)
        requires
            y == 3 * size * h.r,
            den == 6 * size,
    ;
    lemma_round_nearest_exact(h.q as int, den);
    lemma_round_nearest_exact(h.r as int, den);
    assert(round_nearest_spec(0, 2 * den) == 0) by {
        lemma_round_nearest_exact(0, 2 * den);
        assert(0 * (2 * den) == 0) by (nonlinear_arith);
    }
    assert(h.q * den - round_nearest_spec(h.q * den, den) * den == 0);
    assert(h.r * den - round_nearest_spec(h.r * den, den) * den == 0);
}

/// Distance is symmetric and zero on the diagonal.
pub proof fn lemma_distance_symmetry(a: Hex, b: Hex)
    ensures
        distance_spec(a, b) == distance_spec(b, a),
        distance_spec(a, a) == 0,
{
}

/// The packed 64-bit key of a hex: both coordinates shifted to be
/// non-negative, the first scaled past the range of the second. Injective,
/// by `lemma_hex_key_injective`.
pub open spec fn hex_key_spec(h: Hex) -> u64 {
    (((h.q + 0x8000_0000) * 0x1_0000_0000 + (h.r + 0x8000_0000)) as u64)
}

/// Distinct hexes pack to distinct keys.
pub proof fn lemma_hex_key_injective(a: Hex, b: Hex)
    requires
        hex_key_spec(a) == hex_key_spec(b),
    ensures
        a == b,
{
    let ka = (a.q + 0x8000_0000) * 0x1_0000_0000 + (a.r + 0x8000_0000);
    let kb = (b.q + 0x8000_0000) * 0x1_0000_0000 + (b.r + 0x8000_0000);
    assert(0 <= ka <= u64::MAX);
    assert(0 <= kb <= u64::MAX);
    assert(ka == kb);
}

/// Absolute value on `i64` (total for every value the callers here pass).
fn abs_i64(x: i64) -> (r: i64)
    requires
        x > i64::MIN,
    ensures
        r == abs_int(x as int),
{
    if x >= 0 {
        x
    } else {
        -x
    }
}

impl Hex {
    /// Creates a new Hex with the given axial coordinates.
    pub fn new(q: i32, r: i32) -> (h: Hex)
        ensures
            h == (Hex { q, r }),
    {
        Hex { q, r }
    }

    /// Returns the q axial coordinate.
    pub fn q(&self) -> (q: i32)
        ensures
            q == self.q,
    {
        self.q
    }

    /// Returns the r axial coordinate.
    pub fn r(&self) -> (r: i32)
        ensures
            r == self.r,
    {
        self.r
    }

    /// Converts axial coordinates to cube coordinates.
    pub fn to_cube(&self) -> (c: (i32, i32, i32))
        requires
            in_bounds(*self),
        ensures
            c.0 == self.q,
            c.1 == -self.q - self.r,
            c.2 == self.r,
    {
        let x = self.q;
        let z = self.r;
        let y = -x - z;
        (x, y, z)
    }

    /// Converts cube coordinates to axial coordinates, taking the first
    /// two components as `(q, r)`.
    pub fn from_cube(x: i32, y: i32, z: i32) -> (h: Hex)
        ensures
            h == (Hex { q: x, r: y }),
    {
        let q = x;
        let r = y;
        Hex { q, r }
    }

    /// Returns the neighboring hex in the given direction (modulo 6):
    /// direction 0 is the upper-right neighbor, the rest follow clockwise.
    pub fn neighbor(&self, direction: usize) -> (h: Hex)
        requires
            in_bounds(*self),
        ensures
            (h.q as int, h.r as int) == neighbor_spec(*self, direction as int),
            is_neighbor(*self, h),
            -MAX_COORD - 1 <= h.q <= MAX_COORD + 1,
            -MAX_COORD - 1 <= h.r <= MAX_COORD + 1,
    {
        let (dq, dr): (i32, i32) = match direction % 6 {
            0 => (1, -1),
            1 => (1, 0),
            2 => (0, 1),
            3 => (-1, 1),
            4 => (-1, 0),
            _ => (0, -1),
        };
        let h = Hex { q: self.q + dq, r: self.r + dr };
        proof {
            let d = direction as int % 6;
            assert(0 <= d < 6);
            vstd::arithmetic::div_mod::lemma_small_mod(d as nat, 6);
            assert(neighbor_spec(*self, d) == neighbor_spec(*self, direction as int));
            assert(neighbor_spec(*self, direction as int) == (h.q as int, h.r as int));
        }
        h
    }

    /// Returns all six neighboring hexes, clockwise from the upper right.
    pub fn neighbors(&self) -> (v: Vec<Hex>)
        requires
            in_bounds(*self),
        ensures
            v@.len() == 6,
            forall|i: int|
                0 <= i < 6 ==> (#[trigger] v@[i].q as int, v@[i].r as int) == neighbor_spec(
                    *self,
                    i,
                ),
            forall|i: int| 0 <= i < 6 ==> is_neighbor(*self, #[trigger] v@[i]),
    {
        let mut v: Vec<Hex> = Vec::new();
        let mut dir: usize = 0;
        while dir < 6
            invariant
                in_bounds(*self),
                dir <= 6,
                v@.len() == dir,
                forall|i: int|
                    0 <= i < dir ==> (#[trigger] v@[i].q as int, v@[i].r as int) == neighbor_spec(
                        *self,
                        i,
                    ),
                forall|i: int| 0 <= i < dir ==> is_neighbor(*self, #[trigger] v@[i]),
            decreases 6 - dir,
        {
            let h = self.neighbor(dir);
            v.push(h);
            dir = dir + 1;
        }
        v
    }

    /// Computes the hex distance between two hexes.
    pub fn distance(&self, other: &Hex) -> (d: i32)
        requires
            in_bounds(*self),
            in_bounds(*other),
        ensures
            d == distance_spec(*self, *other),
    {
        let x1 = self.q as i64;
        let z1 = self.r as i64;
        let y1 = -x1 - z1;
        let x2 = other.q as i64;
        let z2 = other.r as i64;
        let y2 = -x2 - z2;
        let dx = abs_i64(x1 - x2);
        let dy = abs_i64(y1 - y2);
        let dz = abs_i64(z1 - z2);
        ((dx + dy + dz) / 2) as i32
    }

    /// Packs the two coordinates into one 64-bit key for the spatial
    /// indices.
    pub fn key(&self) -> (k: u64)
        ensures
            k == hex_key_spec(*self),
    {
        let a = (self.q as i64 + 0x8000_0000) as u64;
        let b = (self.r as i64 + 0x8000_0000) as u64;
        a * 0x1_0000_0000 + b
    }

    /// Projects axial coordinates to world space (the fixed-point lattice)
    /// for a hex of circumradius `size`.
    pub fn axial_to_world(&self, size: i64) -> (p: WorldPos)
        requires
            in_bounds(*self),
            0 < size <= MAX_HEX_SIZE,
        ensures
            p.x == to_world_spec(*self, size as int).0,
            p.y == to_world_spec(*self, size as int).1,
    {
        proof {
            assert(-0x4000_0000_0000_0000 <= size * (2 * self.q + self.r) <= 0x4000_0000_0000_0000
                && -0x4000_0000_0000_0000 <= 3 * size * self.r <= 0x4000_0000_0000_0000)
                by (nonlinear_arith)
                requires
                    0 < size <= MAX_HEX_SIZE,
                    in_bounds(*self),
                    MAX_HEX_SIZE == 0x10_0000,
                    MAX_COORD == 0x0FFF_FFFF,
            ;
        }
        let x = size * (2 * (self.q as i64) + (self.r as i64));
        let y = 3 * size * (self.r as i64);
        WorldPos { x, y }
    }

    /// Finds the hex containing a world-space point (the inverse transform
    /// followed by axial rounding), for a hex of circumradius `size`.
    pub fn world_to_axial(world_pos: WorldPos, size: i64) -> (h: Hex)
        requires
            0 < size <= MAX_HEX_SIZE,
            -3 * size * MAX_COORD <= world_pos.x <= 3 * size * MAX_COORD,
            -3 * size * MAX_COORD <= world_pos.y <= 3 * size * MAX_COORD,
        ensures
            (h.q as int, h.r as int) == from_world_spec(
                world_pos.x as int,
                world_pos.y as int,
                size as int,
            ),
    {
        proof {
            assert(-4 * (MAX_COORD as int) * (6 * size) <= 3 * world_pos.x - world_pos.y <= 4 * (
            MAX_COORD as int) * (6 * size) && -4 * (MAX_COORD as int) * (6 * size) <= 2
                * world_pos.y <= 4 * (MAX_COORD as int) * (6 * size)) by (nonlinear_arith)
                requires
                    0 < size,
                    -3 * size * MAX_COORD <= world_pos.x <= 3 * size * MAX_COORD,
                    -3 * size * MAX_COORD <= world_pos.y <= 3 * size * MAX_COORD,
                    MAX_COORD > 0,
            ;
        }
        Self::axial_round(3 * world_pos.x - world_pos.y, 2 * world_pos.y, 6 * size)
    }

    /// Rounds the fractional axial coordinates `(qn/den, rn/den)` to the
    /// nearest hex, correcting the coordinate with the larger rounding
    /// error.
    fn axial_round(qn: i64, rn: i64, den: i64) -> (h: Hex)
        requires
            0 < den <= 0x4000_0000,
            -4 * (MAX_COORD as int) * den <= qn <= 4 * (MAX_COORD as int) * den,
            -4 * (MAX_COORD as int) * den <= rn <= 4 * (MAX_COORD as int) * den,
        ensures
            (h.q as int, h.r as int) == axial_round_spec(qn as int, rn as int, den as int),
    {
        proof {
            assert(-4 * (MAX_COORD as int) * den >= -0x1000_0000_0000_0000 && 4 * (
            MAX_COORD as int) * den <= 0x1000_0000_0000_0000) by (nonlinear_arith)
                requires
                    0 < den <= 0x4000_0000,
                    MAX_COORD == 0x0FFF_FFFF,
            ;
        }
        let rq = Self::round_nearest(qn, den);
        let rr = Self::round_nearest(rn, den);
        proof {
            assert(-0x4000_0001 <= rq <= 0x4000_0001 && -0x4000_0001 <= rr <= 0x4000_0001)
                by (nonlinear_arith)
                requires
                    0 < den <= 0x4000_0000,
                    -4 * (MAX_COORD as int) * den <= qn <= 4 * (MAX_COORD as int) * den,
                    -4 * (MAX_COORD as int) * den <= rn <= 4 * (MAX_COORD as int) * den,
                    2 * den * rq - den <= 2 * qn <= 2 * den * rq + den,
                    2 * den * rr - den <= 2 * rn <= 2 * den * rr + den,
                    MAX_COORD == 0x0FFF_FFFF,
            ;
            assert(-0x2000_0000_8000_0000 <= rq * den <= 0x2000_0000_8000_0000
                && -0x2000_0000_8000_0000 <= rr * den <= 0x2000_0000_8000_0000)
                by (nonlinear_arith)
                requires
                    0 < den <= 0x4000_0000,
                    -0x4000_0001 <= rq <= 0x4000_0001,
                    -0x4000_0001 <= rr <= 0x4000_0001,
            ;
        }
        let qd = qn - rq * den;
        let rd = rn - rr * den;
        proof {
            assert(2 * qd == 2 * qn - 2 * den * rq && 2 * rd == 2 * rn - 2 * den * rr)
                by (nonlinear_arith)
                requires
                    qd == qn - rq * den,
                    rd == rn - rr * den,
            ;
            assert(-den <= 2 * qd <= den && -den <= 2 * rd <= den);
        }
        if abs_i64(qd) > abs_i64(rd) {
            let corr = Self::round_nearest(2 * qd + rd, 2 * den);
            proof {
                assert(-1 <= corr <= 1) by (nonlinear_arith)
                    requires
                        0 < den,
                        -den <= 2 * qd <= den,
                        -den <= 2 * rd <= den,
                        2 * (2 * den) * corr - 2 * den <= 2 * (2 * qd + rd) <= 2 * (2 * den) * corr
                            + 2 * den,
                ;
            }
            Hex { q: (rq + corr) as i32, r: rr as i32 }
        } else {
            let corr = Self::round_nearest(2 * rd + qd, 2 * den);
            proof {
                assert(-1 <= corr <= 1) by (nonlinear_arith)
                    requires
                        0 < den,
                        -den <= 2 * qd <= den,
                        -den <= 2 * rd <= den,
                        2 * (2 * den) * corr - 2 * den <= 2 * (2 * rd + qd) <= 2 * (2 * den) * corr
                            + 2 * den,
                ;
            }
            Hex { q: rq as i32, r: (rr + corr) as i32 }
        }
    }

    /// Rounds the rational `p / d` to the nearest integer, halves away from
    /// zero.
    fn round_nearest(p: i64, d: i64) -> (r: i64)
        requires
            0 < d <= 0x1_0000_0000,
            -0x1000_0000_0000_0000 <= p <= 0x1000_0000_0000_0000,
        ensures
            r == round_nearest_spec(p as int, d as int),
            2 * d * r - d <= 2 * p <= 2 * d * r + d,
    {
        proof {
            lemma_round_nearest_half(p as int, d as int);
        }
        if p >= 0 {
            let num = (2 * p + d) as u64;
            let div = (2 * d) as u64;
            (num / div) as i64
        } else {
            let num = (-(2 * p) + d) as u64;
            let div = (2 * d) as u64;
            -((num / div) as i64)
        }
    }
}

} // verus!
