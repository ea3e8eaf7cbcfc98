//! Rays: an origin and a unit direction.

use vstd::prelude::*;
use crate::fixed::{
    abs, lemma_mul_bound, lemma_trunc_div_bound, DISTANCE_MAX, ONE, ORIGIN_MAX, SCENE_MAX,
};
use crate::geometry::{lemma_normalized_is_unit, AxisOrder, Vec3, V3};
use crate::objects::{lemma_hit_point_bound, lemma_hit_within_reach, Object, Primitive};
use crate::scene::{lemma_nearest_found, Scene};

verus! {

/// The mathematical model of a ray: the half-line of the points
/// `origin + t * direction` for positive distances `t`.
pub struct RayView {
    pub origin: V3,
    pub direction: V3,
}

impl RayView {
    /// The point of the ray at distance `t` from its origin.
    pub open spec fn at(self, t: int) -> V3 {
        self.origin.plus(self.direction.scaled(t))
    }

    /// The same ray in the frame of reference whose axes are the old ones in
    /// the order `order`.
    pub open spec fn reordered(self, order: AxisOrder) -> RayView {
        RayView {
            origin: self.origin.reordered(order),
            direction: self.direction.reordered(order),
        }
    }

    /// A ray that the library can trace: its origin is within `ORIGIN_MAX`,
    /// and its direction has the length one, up to rounding, and no component
    /// beyond one.
    pub open spec fn wf(self) -> bool {
        &&& self.origin.within(ORIGIN_MAX as int)
        &&& self.direction.within(ONE as int)
        &&& self.direction.is_unit()
    }
}

/// A ray. Its direction is normalised once, when the ray is made, and never
/// again.
#[derive(Clone, Copy, Debug)]
pub struct Ray {
    origin: Vec3,
    direction: Vec3,
}

impl View for Ray {
    type V = RayView;

    closed spec fn view(&self) -> RayView {
        RayView { origin: self.origin@, direction: self.direction@ }
    }
}

impl Ray {
    /// The ray that starts at `origin` and runs along `direction`, which is
    /// normalised here.
    pub fn new(origin: Vec3, direction: Vec3) -> (ray: Ray)
        requires
            origin@.within(ORIGIN_MAX as int),
            direction@ != V3::zero(),
        ensures
            ray@.origin == origin@,
            ray@.direction == direction@.normalized(),
            ray@.wf(),
    {
        proof {
            lemma_normalized_is_unit(direction@);
        }
        Ray { origin, direction: direction.normalize() }
    }

    /// The unit direction of the ray.
    pub fn direction(&self) -> (d: &Vec3)
        ensures
            d@ == self@.direction,
    {
        &self.direction
    }

    /// The origin of the ray.
    pub fn origin(&self) -> (o: &Vec3)
        ensures
            o@ == self@.origin,
    {
        &self.origin
    }

    /// The point of the ray at distance `t` from its origin.
    pub fn at(&self, t: i64) -> (p: Vec3)
        requires
            self@.wf(),
            abs(t as int) <= i64::MAX - ORIGIN_MAX,
        ensures
            p@ == self@.at(t as int),
            p@.minus(self@.origin).within(abs(t as int)),
    {
        proof {
            lemma_scaled_unit_within(self@.direction, t as int);
        }
        self.origin.plus(&self.direction.scaled(t))
    }

    /// What the ray meets first in `scene`: the point, the object and the
    /// distance, or nothing where the ray meets no object.
    ///
    /// Every object is tried against the nearest distance found so far, which
    /// only ever shrinks. The point found is therefore the nearest whatever
    /// the order of the objects; among objects met at one and the same
    /// distance, the one that stands first in the scene is returned.
    pub fn nearest_hit<'a>(&self, scene: &'a Scene) -> (hit: Option<(Vec3, &'a Primitive, i64)>)
        requires
            self@.wf(),
            scene@.wf(),
        ensures
            match scene@.nearest(self@) {
                Some((i, t)) => {
                    &&& hit matches Some((p, object, d))
                    &&& d == t
                    &&& *object == scene.objects@[i]
                    &&& p@ == self@.at(t)
                    &&& 0 < t < DISTANCE_MAX
                    &&& scene@.is_nearest(self@, i, t)
                },
                None => hit is None,
            },
            hit is None <==> forall|i: int|
                0 <= i < scene@.objects.len() ==> (#[trigger] scene@.objects[i]).hit_distance(
                    self@,
                ) is None,
    {
        let mut hit: Option<(Vec3, &'a Primitive, i64)> = None;
        let mut t_closest: i64 = i64::MAX;
        let ghost mut found: int = 0;
        let mut k: usize = 0;
        while k < scene.objects.len()
            invariant
                k <= scene.objects.len(),
                self@.wf(),
                scene@.wf(),
                hit is None ==> t_closest == i64::MAX && forall|j: int, u: int|
                    0 <= j < k ==> !scene@.hit_by(self@, j, u),
                hit matches Some((p, object, d)) ==> {
                    &&& d == t_closest
                    &&& 0 < d
                    &&& 0 <= found < k
                    &&& *object == scene.objects@[found]
                    &&& p@ == self@.at(d as int)
                    &&& scene@.hit_by(self@, found, d as int)
                    &&& forall|j: int, u: int| 0 <= j < k && scene@.hit_by(self@, j, u) ==> d <= u
                    &&& forall|j: int| 0 <= j < found ==> !scene@.hit_by(self@, j, d as int)
                },
            decreases scene.objects.len() - k,
        {
            let object: &'a Primitive = &scene.objects[k];
            assert(scene@.objects[k as int] == scene.objects@[k as int]@);
            proof {
                lemma_hit_within_reach(object@, self@);
            }
            if let Some(p) = object.intersected_by(self, &mut t_closest) {
                hit = Some((p, object, t_closest));
                proof {
                    found = k as int;
                }
            }
            k = k + 1;
        }
        proof {
            match hit {
                Some((p, object, d)) => {
                    assert(scene@.is_nearest(self@, found, d as int));
                    lemma_nearest_found(scene@, self@, found, d as int);
                    lemma_hit_within_reach(scene@.objects[found], self@);
                },
                None => {
                    assert(!scene@.meets_any(self@));
                    assert forall|i: int| 0 <= i < scene@.objects.len() implies (
                    #[trigger] scene@.objects[i]).hit_distance(self@) is None by {
                        if scene@.objects[i].hit_distance(self@) is Some {
                            let t: int = scene@.objects[i].hit_distance(self@).unwrap();
                            assert(scene@.hit_by(self@, i, t));
                        }
                    }
                },
            }
        }
        hit
    }

    /// The colour that comes back along the ray from `scene`: the colour of
    /// the point that the ray meets first, or that of the background where it
    /// meets nothing.
    pub fn color(&self, scene: &Scene) -> (c: Vec3)
        requires
            self@.wf(),
            self@.origin.within(SCENE_MAX as int),
            scene@.wf(),
        ensures
            c@ == scene@.color_seen(self@),
            !scene@.meets_any(self@) ==> c@ == scene@.background_color,
    {
        let unit_direction: Vec3 = self.direction;
        if let Some((p, object, t)) = self.nearest_hit(scene) {
            proof {
                let i: int = scene@.nearest(self@).unwrap().0;
                assert(scene@.objects[i] == scene.objects@[i]@);
                lemma_hit_point_bound(scene@.objects[i], self@);
            }
            object.color(p, unit_direction, scene)
        } else {
            scene.background_color
        }
    }
}

/// Scaling a vector that has no component beyond one by `t` gives a vector
/// with no component beyond `|t|`.
pub proof fn lemma_scaled_unit_within(d: V3, t: int)
    requires
        d.within(ONE as int),
    ensures
        d.scaled(t).within(abs(t)),
{
    lemma_mul_bound(d.x, t, ONE as int, abs(t));
    lemma_mul_bound(d.y, t, ONE as int, abs(t));
    lemma_mul_bound(d.z, t, ONE as int, abs(t));
    assert(ONE * abs(t) == abs(t) * ONE) by (nonlinear_arith);
    lemma_trunc_div_bound(d.x * t, ONE as int, abs(t));
    lemma_trunc_div_bound(d.y * t, ONE as int, abs(t));
    lemma_trunc_div_bound(d.z * t, ONE as int, abs(t));
}

} // verus!
