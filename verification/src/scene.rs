//! An ordered collection of spheres, and nearest-hit selection: every sphere
//! is tested against the ray and the smallest hit distance wins, the earliest
//! sphere breaking exact ties.

use vstd::prelude::*;

use crate::intersect::{ray_sphere_intersection, spec_hit_dist, RaySphereIntersection};
use crate::math::{COORD_LIMIT, DIST_LIMIT};
use crate::sphere::Sphere;
use crate::vec3::{bounded, v3, Vec3};

verus! {

/// One selection step: the best hit so far against the hit of the sphere at
/// index `k`; a strictly smaller distance replaces the best, a tie keeps the
/// earlier sphere.
pub open spec fn nearest_step(prev: Option<(int, int)>, cur: Option<int>, k: int) -> Option<
    (int, int),
> {
    match cur {
        None => prev,
        Some(d) => match prev {
            None => Some((k, d)),
            Some(p) => if d < p.1 {
                Some((k, d))
            } else {
                prev
            },
        },
    }
}

/// The nearest hit among the first `n` spheres of `s`, as an index-distance
/// pair.
pub open spec fn spec_nearest_prefix(s: Seq<Sphere>, origin: Vec3, ray: Vec3, n: int) -> Option<
    (int, int),
>
    decreases n,
{
    if n <= 0 {
        None
    } else {
        nearest_step(
            spec_nearest_prefix(s, origin, ray, n - 1),
            spec_hit_dist(origin, ray, s[n - 1]),
            n - 1,
        )
    }
}

/// The nearest hit among all spheres of `s`.
pub open spec fn spec_nearest(s: Seq<Sphere>, origin: Vec3, ray: Vec3) -> Option<(int, int)> {
    spec_nearest_prefix(s, origin, ray, s.len() as int)
}

/// What `spec_nearest_prefix` selects: `None` exactly when no sphere among
/// the first `n` is hit; otherwise the hit with the least distance, and at
/// equal distances the least index.
pub proof fn lemma_nearest_prefix_props(s: Seq<Sphere>, origin: Vec3, ray: Vec3, n: int)
    requires
        0 <= n <= s.len(),
    ensures
        match spec_nearest_prefix(s, origin, ray, n) {
            None => forall|j: int|
                0 <= j < n ==> spec_hit_dist(origin, ray, s[j]) is None,
            Some(p) => {
                &&& 0 <= p.0 < n
                &&& spec_hit_dist(origin, ray, s[p.0]) == Some(p.1)
                &&& forall|j: int|
                    0 <= j < n ==> (#[trigger] spec_hit_dist(origin, ray, s[j]) matches Some(dj)
                        ==> p.1 <= dj && (p.1 == dj ==> p.0 <= j))
            },
        },
    decreases n,
{
    if n > 0 {
        lemma_nearest_prefix_props(s, origin, ray, n - 1);
    }
}

/// An ordered scene of well-formed spheres.
pub struct Scene {
    pub spheres: Vec<Sphere>,
}

impl Scene {
    /// The scene as a sequence of spheres, in insertion order.
    pub open spec fn view_seq(self) -> Seq<Sphere> {
        self.spheres@
    }

    /// Every sphere in the scene is well formed.
    pub open spec fn wf(self) -> bool {
        forall|i: int| 0 <= i < self.spheres@.len() ==> (#[trigger] self.spheres@[i]).wf()
    }

    /// An empty scene.
    pub fn new() -> (r: Scene)
        ensures
            r.view_seq() == Seq::<Sphere>::empty(),
            r.wf(),
    {
        let r = Scene { spheres: Vec::new() };
        proof {
            assert(r.view_seq() =~= Seq::<Sphere>::empty());
        }
        r
    }

    /// Appends a sphere; insertion order is kept.
    pub fn push(&mut self, s: Sphere)
        requires
            old(self).wf(),
            s.wf(),
        ensures
            final (self).view_seq() == old(self).view_seq().push(s),
            final (self).wf(),
    {
        self.spheres.push(s);
    }

    /// The number of spheres in the scene.
    pub fn len(&self) -> (r: usize)
        ensures
            r == self.view_seq().len(),
    {
        self.spheres.len()
    }

    /// The sphere at index `i`.
    pub fn sphere_at(&self, i: usize) -> (r: Sphere)
        requires
            i < self.view_seq().len(),
        ensures
            r == self.view_seq()[i as int],
    {
        self.spheres[i]
    }

    /// Tests every sphere against the ray and returns the index and distance
    /// of the nearest hit, exactly as `spec_nearest` states.
    pub fn nearest_hit(&self, origin: &Vec3, ray: &Vec3) -> (r: Option<(usize, i64)>)
        requires
            self.wf(),
            bounded(v3(*origin), COORD_LIMIT as int),
            bounded(v3(*ray), COORD_LIMIT as int),
        ensures
            match r {
                None => spec_nearest(self.view_seq(), *origin, *ray) is None,
                Some(p) => {
                    &&& spec_nearest(self.view_seq(), *origin, *ray) == Some(
                        (p.0 as int, p.1 as int),
                    )
                    &&& p.0 < self.view_seq().len()
                    &&& -DIST_LIMIT <= p.1 <= DIST_LIMIT
                },
            },
    {
        let n: usize = self.spheres.len();
        let mut best: Option<(usize, i64)> = None;
        let mut i: usize = 0;
        while i < n
            invariant
                self.wf(),
                bounded(v3(*origin), COORD_LIMIT as int),
                bounded(v3(*ray), COORD_LIMIT as int),
                n == self.spheres@.len(),
                0 <= i <= n,
                match best {
                    None => spec_nearest_prefix(self.spheres@, *origin, *ray, i as int) is None,
                    Some(p) => {
                        &&& spec_nearest_prefix(self.spheres@, *origin, *ray, i as int) == Some(
                            (p.0 as int, p.1 as int),
                        )
                        &&& p.0 < i
                        &&& -DIST_LIMIT <= p.1 <= DIST_LIMIT
                    },
                },
            decreases n - i,
        {
            match ray_sphere_intersection(origin, ray, &self.spheres[i]) {
                RaySphereIntersection::No => {},
                RaySphereIntersection::Yes(d) => {
                    match best {
                        None => {
                            best = Some((i, d));
                        },
                        Some(p) => {
                            if d < p.1 {
                                best = Some((i, d));
                            }
                        },
                    }
                },
            }
            i = i + 1;
        }
        best
    }
}

} // verus!
