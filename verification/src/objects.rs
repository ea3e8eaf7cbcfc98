//! The objects of a scene: what each of them can be asked, and how a point
//! of one is coloured.

use vstd::prelude::*;
use crate::fixed::{DISTANCE_MAX, ONE, ORIGIN_MAX, POINT_MAX, SCENE_MAX, SHADOW_BIAS};
use crate::geometry::{Vec3, V3};
use crate::material::{lemma_scaled_bound, phong, MaterialView, COLOR_MAX};
use crate::rays::{lemma_scaled_unit_within, Ray, RayView};
use crate::scene::{Scene, SceneView};
use crate::sphere::{lemma_sphere_hit_bound, SphereView};
use crate::triangle::{lemma_triangle_hit_bound, TriangleView};

pub use crate::material::Material;
pub use crate::sphere::Sphere;
pub use crate::triangle::Triangle;

verus! {

/// The mathematical model of an object: a sphere or a triangle.
pub enum PrimitiveView {
    Sphere(SphereView),
    Triangle(TriangleView),
}

impl PrimitiveView {
    /// The object is a valid sphere or a valid triangle.
    pub open spec fn wf(self) -> bool {
        match self {
            PrimitiveView::Sphere(s) => s.wf(),
            PrimitiveView::Triangle(t) => t.wf(),
        }
    }

    /// The material of the object.
    pub open spec fn material(self) -> MaterialView {
        match self {
            PrimitiveView::Sphere(s) => s.material,
            PrimitiveView::Triangle(t) => t.material,
        }
    }

    /// The distance at which the ray first meets the object, if it meets it
    /// at all.
    pub open spec fn hit_distance(self, ray: RayView) -> Option<int> {
        match self {
            PrimitiveView::Sphere(s) => s.hit_distance(ray),
            PrimitiveView::Triangle(t) => t.hit_distance(ray),
        }
    }

    /// A vector along the normal of the surface at `point`, of no particular
    /// length.
    pub open spec fn surface_normal(self, point: V3) -> V3 {
        match self {
            PrimitiveView::Sphere(s) => s.surface_normal(point),
            PrimitiveView::Triangle(t) => t.surface_normal(point),
        }
    }

    /// The unit normal of the surface at `point`.
    pub open spec fn unit_normal(self, point: V3) -> V3 {
        self.surface_normal(point).normalized()
    }

    /// The ray that looks for the light from `point`: it starts a little off
    /// the surface, on the side of the normal, and runs toward the light.
    pub open spec fn shadow_ray(self, point: V3, scene: SceneView) -> RayView {
        RayView {
            origin: point.plus(self.unit_normal(point).scaled(SHADOW_BIAS as int)),
            direction: scene.direction_to_light.normalized(),
        }
    }

    /// The colour of the point `point` of this object in `scene`, seen along
    /// the unit direction `view`: black where any object of the scene stands
    /// between the point and the light, and else what the illumination model
    /// gives for the material of the object.
    pub open spec fn color_at(self, point: V3, view: V3, scene: SceneView) -> V3 {
        if scene.meets_any(self.shadow_ray(point, scene)) {
            V3::zero()
        } else {
            phong(
                self.material(),
                self.unit_normal(point),
                view,
                scene.direction_to_light,
                scene.light_color,
                scene.ambient_light,
            )
        }
    }
}

/// A distance at which a ray meets an object is positive.
pub proof fn lemma_hit_positive(object: PrimitiveView, ray: RayView)
    ensures
        object.hit_distance(ray) matches Some(t) ==> t > 0,
{
}

/// Whatever a ray meets, it meets nearer than `DISTANCE_MAX`: the limits on
/// the scene and on the origin of a ray leave no room for more.
pub proof fn lemma_hit_within_reach(object: PrimitiveView, ray: RayView)
    requires
        object.wf(),
        ray.wf(),
    ensures
        object.hit_distance(ray) matches Some(t) ==> 0 < t < DISTANCE_MAX,
{
    match object {
        PrimitiveView::Sphere(s) => {
            lemma_sphere_hit_bound(s, ray, ORIGIN_MAX as int);
        },
        PrimitiveView::Triangle(t) => {
            lemma_triangle_hit_bound(t, ray, ORIGIN_MAX as int);
        },
    }
}

/// What a ray that starts within `SCENE_MAX` meets, it meets within
/// `POINT_MAX`.
pub proof fn lemma_hit_point_bound(object: PrimitiveView, ray: RayView)
    requires
        object.wf(),
        ray.wf(),
        ray.origin.within(SCENE_MAX as int),
    ensures
        object.hit_distance(ray) matches Some(t) ==> ray.at(t).within(POINT_MAX as int),
{
    match object {
        PrimitiveView::Sphere(s) => {
            lemma_sphere_hit_bound(s, ray, SCENE_MAX as int);
            if s.hit_distance(ray) is Some {
                lemma_scaled_unit_within(ray.direction, s.hit_distance(ray).unwrap());
            }
        },
        PrimitiveView::Triangle(t) => {
            lemma_triangle_hit_bound(t, ray, SCENE_MAX as int);
        },
    }
}

/// What every object of a scene can be asked: its material, where a ray
/// meets it, and its normal at a point.
pub trait Object {
    /// What the object is.
    spec fn model(&self) -> PrimitiveView;

    /// The material of the object.
    fn get_material(&self) -> (m: &Material)
        ensures
            m@ == self.model().material(),
    ;

    /// Looks for the point where `ray` meets the object at a distance below
    /// `*t_closest`, the distance of the nearest point found so far. If there
    /// is one, it is returned and its distance replaces `*t_closest`;
    /// otherwise `*t_closest` is left as it was. A caller that hands the same
    /// `t_closest` to one object after the other is thus left with the
    /// nearest of all.
    fn intersected_by(&self, ray: &Ray, t_closest: &mut i64) -> (hit: Option<Vec3>)
        requires
            self.model().wf(),
            ray@.wf(),
        ensures
            match self.model().hit_distance(ray@) {
                Some(t) => if t < *old(t_closest) {
                    &&& 0 < t
                    &&& *final(t_closest) == t
                    &&& hit matches Some(p) && p@ == ray@.at(t)
                } else {
                    hit is None && *final(t_closest) == *old(t_closest)
                },
                None => hit is None && *final(t_closest) == *old(t_closest),
            },
    ;

    /// A vector along the normal of the surface at `point`, of no particular
    /// length.
    fn normal_ugly(&self, point: Vec3) -> (n: Vec3)
        requires
            self.model().wf(),
            point@.within(ORIGIN_MAX as int),
        ensures
            n@ == self.model().surface_normal(point@),
    ;

    /// The unit normal of the surface at `point`. Where the surface has no
    /// normal, which is so all over a triangle whose corners lie on one line,
    /// the zero vector stands in for it.
    fn normal(&self, point: Vec3) -> (n: Vec3)
        requires
            self.model().wf(),
            point@.within(ORIGIN_MAX as int),
        ensures
            n@ == self.model().unit_normal(point@),
            n@.within(ONE as int),
            self.model().surface_normal(point@) != V3::zero() ==> n@.is_unit(),
    {
        self.normal_ugly(point).normalize()
    }
}

/// One object of a scene.
#[derive(Clone, Copy, Debug, PartialEq, Eq)]
pub enum Primitive {
    Sphere(Sphere),
    Triangle(Triangle),
}

impl View for Primitive {
    type V = PrimitiveView;

    open spec fn view(&self) -> PrimitiveView {
        match self {
            Primitive::Sphere(s) => PrimitiveView::Sphere(s@),
            Primitive::Triangle(t) => PrimitiveView::Triangle(t@),
        }
    }
}

impl Object for Primitive {
    open spec fn model(&self) -> PrimitiveView {
        self@
    }

    fn get_material(&self) -> (m: &Material) {
        match self {
            Primitive::Sphere(s) => s.get_material(),
            Primitive::Triangle(t) => t.get_material(),
        }
    }

    fn intersected_by(&self, ray: &Ray, t_closest: &mut i64) -> (hit: Option<Vec3>) {
        match self {
            Primitive::Sphere(s) => s.intersected_by(ray, t_closest),
            Primitive::Triangle(t) => t.intersected_by(ray, t_closest),
        }
    }

    fn normal_ugly(&self, point: Vec3) -> (n: Vec3) {
        match self {
            Primitive::Sphere(s) => s.normal_ugly(point),
            Primitive::Triangle(t) => t.normal_ugly(point),
        }
    }
}

impl Primitive {
    /// The colour of the point `point` of this object in `scene`, seen along
    /// the unit direction `view_direction`. A point that any object of the
    /// scene hides from the light is black.
    pub fn color(&self, point: Vec3, view_direction: Vec3, scene: &Scene) -> (c: Vec3)
        requires
            self@.wf(),
            scene@.wf(),
            point@.within(POINT_MAX as int),
            view_direction@.within(ONE as int),
        ensures
            c@ == self@.color_at(point@, view_direction@, scene@),
            c@.within(COLOR_MAX as int),
            (exists|i: int|
                0 <= i < scene@.objects.len() && (#[trigger] scene@.objects[i]).hit_distance(
                    self@.shadow_ray(point@, scene@),
                ) is Some) ==> c@ == V3::zero(),
    {
        let normal: Vec3 = self.normal(point);
        proof {
            lemma_scaled_bound(
                normal@,
                SHADOW_BIAS as int,
                ONE as int,
                SHADOW_BIAS as int,
                SHADOW_BIAS as int,
            );
        }
        let shadow_origin: Vec3 = point.plus(&normal.scaled(SHADOW_BIAS));
        let shadow_ray: Ray = Ray::new(shadow_origin, scene.direction_to_light);
        assert(shadow_ray@ == self@.shadow_ray(point@, scene@));
        let mut i: usize = 0;
        while i < scene.objects.len()
            invariant
                i <= scene.objects.len(),
                scene@.wf(),
                shadow_ray@.wf(),
                shadow_ray@ == self@.shadow_ray(point@, scene@),
                forall|j: int, t: int| 0 <= j < i ==> !scene@.hit_by(shadow_ray@, j, t),
            decreases scene.objects.len() - i,
        {
            let mut t: i64 = i64::MAX;
            assert(scene@.objects[i as int] == scene.objects@[i as int]@);
            proof {
                lemma_hit_within_reach(scene@.objects[i as int], shadow_ray@);
            }
            if scene.objects[i].intersected_by(&shadow_ray, &mut t).is_some() {
                assert(scene@.hit_by(shadow_ray@, i as int, t as int));
                return Vec3::zeros();
            }
            i = i + 1;
        }
        proof {
            assert forall|j: int| 0 <= j < scene@.objects.len() implies (
            #[trigger] scene@.objects[j]).hit_distance(shadow_ray@) is None by {
                if scene@.objects[j].hit_distance(shadow_ray@) is Some {
                    let t: int = scene@.objects[j].hit_distance(shadow_ray@).unwrap();
                    assert(scene@.hit_by(shadow_ray@, j, t));
                }
            }
        }
        self.get_material().color(&normal, view_direction, scene)
    }
}

} // verus!
