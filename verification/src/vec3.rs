//! Three-component fixed-point vectors and the algebra the caster needs:
//! subtraction, dot product and squared magnitude.

use vstd::prelude::*;

use crate::math::{isqrt_u128, lemma_tdiv_bound, sqrt_floor, tdiv, tdiv_i128, COORD_LIMIT, SCALE};

verus! {

/// A point, direction or RGB color in fixed-point units (see
/// [`crate::math::SCALE`]).
#[derive(Clone, Copy, PartialEq, Eq, Structural, Debug)]
pub struct Vec3 {
    pub x: i64,
    pub y: i64,
    pub z: i64,
}

/// The components of `v` as unbounded integers.
pub open spec fn v3(v: Vec3) -> (int, int, int) {
    (v.x as int, v.y as int, v.z as int)
}

/// Component-wise difference.
pub open spec fn sub3(a: (int, int, int), b: (int, int, int)) -> (int, int, int) {
    (a.0 - b.0, a.1 - b.1, a.2 - b.2)
}

/// Dot product.
pub open spec fn dot3(a: (int, int, int), b: (int, int, int)) -> int {
    a.0 * b.0 + a.1 * b.1 + a.2 * b.2
}

/// Squared magnitude.
pub open spec fn mag_sq3(a: (int, int, int)) -> int {
    dot3(a, a)
}

/// Every component of `v` has magnitude at most `m`.
pub open spec fn bounded(v: (int, int, int), m: int) -> bool {
    &&& -m <= v.0 <= m
    &&& -m <= v.1 <= m
    &&& -m <= v.2 <= m
}

/// A dot product of bounded vectors is bounded.
pub proof fn lemma_dot3_bound(a: (int, int, int), b: (int, int, int), ma: int, mb: int)
    requires
        ma >= 0,
        mb >= 0,
        bounded(a, ma),
        bounded(b, mb),
    ensures
        -3 * (ma * mb) <= dot3(a, b) <= 3 * (ma * mb),
{
    assert(-3 * (ma * mb) <= a.0 * b.0 + a.1 * b.1 + a.2 * b.2 <= 3 * (ma * mb))
        by (nonlinear_arith)
        requires
            ma >= 0,
            mb >= 0,
            -ma <= a.0 <= ma,
            -ma <= a.1 <= ma,
            -ma <= a.2 <= ma,
            -mb <= b.0 <= mb,
            -mb <= b.1 <= mb,
            -mb <= b.2 <= mb,
    ;
}

/// A squared magnitude is never negative.
pub proof fn lemma_mag_sq3_nonneg(a: (int, int, int))
    ensures
        mag_sq3(a) >= 0,
{
    assert(a.0 * a.0 + a.1 * a.1 + a.2 * a.2 >= 0) by (nonlinear_arith);
}

impl Vec3 {
    /// Component-wise difference `self - o`.
    pub fn sub(&self, o: &Vec3) -> (r: Vec3)
        requires
            i64::MIN <= self.x - o.x <= i64::MAX,
            i64::MIN <= self.y - o.y <= i64::MAX,
            i64::MIN <= self.z - o.z <= i64::MAX,
        ensures
            v3(r) == sub3(v3(*self), v3(*o)),
    {
        Vec3 { x: self.x - o.x, y: self.y - o.y, z: self.z - o.z }
    }

    /// Component-wise sum `self + o`.
    pub fn add(&self, o: &Vec3) -> (r: Vec3)
        requires
            i64::MIN <= self.x + o.x <= i64::MAX,
            i64::MIN <= self.y + o.y <= i64::MAX,
            i64::MIN <= self.z + o.z <= i64::MAX,
        ensures
            v3(r) == (self.x + o.x, self.y + o.y, self.z + o.z),
    {
        Vec3 { x: self.x + o.x, y: self.y + o.y, z: self.z + o.z }
    }

    /// Fixed-point scalar multiplication: each component scaled by
    /// `k / SCALE`, rounded toward zero.
    pub fn scale(&self, k: i64) -> (r: Vec3)
        requires
            bounded(v3(*self), COORD_LIMIT as int),
            -COORD_LIMIT <= k <= COORD_LIMIT,
        ensures
            v3(r) == (
                tdiv(k * self.x, SCALE as int),
                tdiv(k * self.y, SCALE as int),
                tdiv(k * self.z, SCALE as int),
            ),
    {
        proof {
            assert(-250_000_000_000_000_000 <= (k as int) * (self.x as int)
                <= 250_000_000_000_000_000
                && -250_000_000_000_000_000 <= (k as int) * (self.y as int)
                <= 250_000_000_000_000_000
                && -250_000_000_000_000_000 <= (k as int) * (self.z as int)
                <= 250_000_000_000_000_000) by (nonlinear_arith)
                requires
                    -500_000_000 <= k <= 500_000_000,
                    -500_000_000 <= self.x <= 500_000_000,
                    -500_000_000 <= self.y <= 500_000_000,
                    -500_000_000 <= self.z <= 500_000_000,
            ;
            lemma_tdiv_bound((k as int) * (self.x as int), SCALE as int, 250_000_000_000_000_000);
            lemma_tdiv_bound((k as int) * (self.y as int), SCALE as int, 250_000_000_000_000_000);
            lemma_tdiv_bound((k as int) * (self.z as int), SCALE as int, 250_000_000_000_000_000);
        }
        Vec3 {
            x: tdiv_i128((k as i128) * (self.x as i128), SCALE as i128) as i64,
            y: tdiv_i128((k as i128) * (self.y as i128), SCALE as i128) as i64,
            z: tdiv_i128((k as i128) * (self.z as i128), SCALE as i128) as i64,
        }
    }

    /// Squared magnitude `self . self`, exact in 128-bit arithmetic.
    pub fn mag_sq(&self) -> (r: i128)
        requires
            bounded(v3(*self), 2_000_000_000_000_000_000),
        ensures
            r as int == mag_sq3(v3(*self)),
    {
        self.dot(self)
    }

    /// Magnitude: the floor square root of the squared magnitude, a
    /// fixed-point length at scale `SCALE`.
    pub fn mag(&self) -> (r: i64)
        requires
            bounded(v3(*self), COORD_LIMIT as int),
        ensures
            r as int == sqrt_floor(mag_sq3(v3(*self)) as nat),
            r >= 0,
    {
        proof {
            lemma_dot3_bound(v3(*self), v3(*self), COORD_LIMIT as int, COORD_LIMIT as int);
            lemma_mag_sq3_nonneg(v3(*self));
        }
        let msq: i128 = self.dot(self);
        let root: u128 = isqrt_u128(msq as u128);
        proof {
            assert(root <= 1_000_000_000u128) by (nonlinear_arith)
                requires
                    root >= 0,
                    (root as int) * (root as int) <= 750_000_000_000_000_000int,
            ;
        }
        root as i64
    }

    /// Dot product `self . o`, exact in 128-bit arithmetic.
    pub fn dot(&self, o: &Vec3) -> (r: i128)
        requires
            bounded(v3(*self), 2_000_000_000_000_000_000),
            bounded(v3(*o), 2_000_000_000_000_000_000),
        ensures
            r as int == dot3(v3(*self), v3(*o)),
    {
        proof {
            lemma_dot3_bound(v3(*self), v3(*o), 2_000_000_000_000_000_000,
                2_000_000_000_000_000_000);
            assert((self.x as int) * (o.x as int) <= 2_000_000_000_000_000_000int
                * 2_000_000_000_000_000_000 && (self.x as int) * (o.x as int)
                >= -2_000_000_000_000_000_000int * 2_000_000_000_000_000_000)
                by (nonlinear_arith)
                requires
                    -2_000_000_000_000_000_000 <= self.x <= 2_000_000_000_000_000_000,
                    -2_000_000_000_000_000_000 <= o.x <= 2_000_000_000_000_000_000,
            ;
            assert((self.y as int) * (o.y as int) <= 2_000_000_000_000_000_000int
                * 2_000_000_000_000_000_000 && (self.y as int) * (o.y as int)
                >= -2_000_000_000_000_000_000int * 2_000_000_000_000_000_000)
                by (nonlinear_arith)
                requires
                    -2_000_000_000_000_000_000 <= self.y <= 2_000_000_000_000_000_000,
                    -2_000_000_000_000_000_000 <= o.y <= 2_000_000_000_000_000_000,
            ;
            assert((self.z as int) * (o.z as int) <= 2_000_000_000_000_000_000int
                * 2_000_000_000_000_000_000 && (self.z as int) * (o.z as int)
                >= -2_000_000_000_000_000_000int * 2_000_000_000_000_000_000)
                by (nonlinear_arith)
                requires
                    -2_000_000_000_000_000_000 <= self.z <= 2_000_000_000_000_000_000,
                    -2_000_000_000_000_000_000 <= o.z <= 2_000_000_000_000_000_000,
            ;
        }
        (self.x as i128) * (o.x as i128) + (self.y as i128) * (o.y as i128)
            + (self.z as i128) * (o.z as i128)
    }
}

} // verus!
