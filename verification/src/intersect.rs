//! Ray-sphere intersection: the sign of the quadratic discriminant decides
//! whether the ray meets the sphere, and the near root gives the hit
//! distance.

use vstd::prelude::*;

use crate::math::{isqrt_u128, sqrt_floor, COORD_LIMIT, DIST_LIMIT, SCALE_SQ};
use crate::sphere::Sphere;
use crate::vec3::{bounded, dot3, lemma_dot3_bound, lemma_mag_sq3_nonneg, mag_sq3, sub3, v3, Vec3};

verus! {

/// The outcome of testing one sphere against one ray: either the ray misses,
/// or it hits at a fixed-point parametric distance (scale `SCALE_SQ`).
///
/// A hit behind the ray origin is still reported, with a negative distance:
/// the near root is never culled, so such a hit can win the nearest-hit
/// comparison against farther spheres in front.
#[derive(Clone, Copy, PartialEq, Eq, Structural, Debug)]
pub enum RaySphereIntersection {
    No,
    Yes(i64),
}

/// The quadratic discriminant of the sphere equation along the ray, at scale
/// `SCALE^4`: with `oc = origin - center` and `b = ray . oc`, this is
/// `b^2 - (|oc|^2 - radius^2) * SCALE^2`.
pub open spec fn spec_disc(origin: Vec3, ray: Vec3, s: Sphere) -> int {
    let oc = sub3(v3(origin), v3(s.center));
    let b = dot3(v3(ray), oc);
    b * b - (mag_sq3(oc) - s.radius * s.radius) * (SCALE_SQ as int)
}

/// The near-root hit distance at scale `SCALE_SQ`, or `None` when the
/// discriminant is negative. The square root is rounded down.
pub open spec fn spec_hit_dist(origin: Vec3, ray: Vec3, s: Sphere) -> Option<int> {
    if spec_disc(origin, ray, s) < 0 {
        None
    } else {
        let oc = sub3(v3(origin), v3(s.center));
        let b = dot3(v3(ray), oc);
        Some(-b - sqrt_floor(spec_disc(origin, ray, s) as nat))
    }
}

/// Intersects one ray with one sphere, exactly as `spec_hit_dist` states.
pub fn ray_sphere_intersection(origin: &Vec3, ray: &Vec3, sphere: &Sphere) -> (r:
    RaySphereIntersection)
    requires
        bounded(v3(*origin), COORD_LIMIT as int),
        bounded(v3(*ray), COORD_LIMIT as int),
        sphere.wf(),
    ensures
        match r {
            RaySphereIntersection::No => spec_hit_dist(*origin, *ray, *sphere) is None,
            RaySphereIntersection::Yes(d) => {
                &&& spec_hit_dist(*origin, *ray, *sphere) == Some(d as int)
                &&& -DIST_LIMIT <= d <= DIST_LIMIT
            },
        },
{
    let oc = origin.sub(&sphere.center);
    proof {
        assert(bounded(v3(oc), 1_000_000_000));
        lemma_dot3_bound(v3(*ray), v3(oc), COORD_LIMIT as int, 1_000_000_000);
        lemma_dot3_bound(v3(oc), v3(oc), 1_000_000_000, 1_000_000_000);
        lemma_mag_sq3_nonneg(v3(oc));
    }
    let b: i128 = ray.dot(&oc);
    let oc_sq: i128 = oc.dot(&oc);
    proof {
        assert((sphere.radius as int) * (sphere.radius as int) <= 250_000_000_000_000_000
            && (sphere.radius as int) * (sphere.radius as int) > 0) by (nonlinear_arith)
            requires
                0 < sphere.radius <= 500_000_000,
        ;
        assert((b as int) * (b as int) <= 2_250_000_000_000_000_000_000_000_000_000_000_000
            && (b as int) * (b as int) >= 0) by (nonlinear_arith)
            requires
                -1_500_000_000_000_000_000 <= b <= 1_500_000_000_000_000_000,
        ;
    }
    let r_sq: i128 = (sphere.radius as i128) * (sphere.radius as i128);
    proof {
        assert(-300_000_000_000_000_000_000_000_000_000
            <= (oc_sq as int - r_sq as int) * 1_000_000_000_000
            <= 3_000_000_000_000_000_000_000_000_000_000int) by (nonlinear_arith)
            requires
                -250_000_000_000_000_000 <= oc_sq as int - r_sq as int
                    <= 3_000_000_000_000_000_000,
        ;
    }
    let disc: i128 = b * b - (oc_sq - r_sq) * (SCALE_SQ as i128);
    if disc < 0 {
        RaySphereIntersection::No
    } else {
        let sq: u128 = isqrt_u128(disc as u128);
        proof {
            assert(sq <= 1_600_000_000_000_000_000) by (nonlinear_arith)
                requires
                    sq >= 0,
                    (sq as int) * (sq as int) <= 2_250_300_000_000_000_000_000_000_000_000_000_000int,
            ;
        }
        let d: i128 = -b - (sq as i128);
        RaySphereIntersection::Yes(d as i64)
    }
}

} // verus!
