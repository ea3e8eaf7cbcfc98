//! Scenes: the light, the colours of the surroundings, and the objects.

use vstd::prelude::*;
use crate::fixed::SCENE_MAX;
use crate::geometry::{Vec3, V3};
use crate::material::{Material, MaterialView};
use crate::objects::{Primitive, PrimitiveView};
use crate::rays::RayView;
use crate::sphere::{Sphere, SphereView};
use crate::triangle::{Triangle, TriangleView};

verus! {

/// The mathematical model of a `Scene`.
pub struct SceneView {
    pub direction_to_light: V3,
    pub light_color: V3,
    pub ambient_light: V3,
    pub background_color: V3,
    pub objects: Seq<PrimitiveView>,
}

/// Everything a ray is traced against. A scene is built once and only read
/// afterwards.
///
/// `direction_to_light` points from every surface toward the light, which is
/// infinitely far away; it is kept as given and normalised where it is used.
#[derive(Debug)]
pub struct Scene {
    pub direction_to_light: Vec3,
    pub light_color: Vec3,
    pub ambient_light: Vec3,
    pub background_color: Vec3,
    pub objects: Vec<Primitive>,
}

impl View for Scene {
    type V = SceneView;

    open spec fn view(&self) -> SceneView {
        SceneView {
            direction_to_light: self.direction_to_light@,
            light_color: self.light_color@,
            ambient_light: self.ambient_light@,
            background_color: self.background_color@,
            objects: self.objects@.map_values(|p: Primitive| p@),
        }
    }
}

impl SceneView {
    /// Every scalar of the scene is within `SCENE_MAX`, the light has a
    /// direction, and every object is valid.
    pub open spec fn wf(self) -> bool {
        &&& self.direction_to_light.within(SCENE_MAX as int)
        &&& self.direction_to_light != V3::zero()
        &&& self.light_color.within(SCENE_MAX as int)
        &&& self.ambient_light.within(SCENE_MAX as int)
        &&& self.background_color.within(SCENE_MAX as int)
        &&& forall|i: int| 0 <= i < self.objects.len() ==> (#[trigger] self.objects[i]).wf()
    }

    /// The ray meets object `i` of the scene at the distance `t`.
    pub open spec fn hit_by(self, ray: RayView, i: int, t: int) -> bool {
        &&& 0 <= i < self.objects.len()
        &&& self.objects[i].hit_distance(ray) == Some(t)
    }

    /// The ray meets some object of the scene.
    pub open spec fn meets_any(self, ray: RayView) -> bool {
        exists|i: int, t: int| self.hit_by(ray, i, t)
    }

    /// Object `i` at distance `t` is what the ray meets first: no object is
    /// met at a smaller distance, and no object that stands earlier in the
    /// scene is met at the same distance.
    pub open spec fn is_nearest(self, ray: RayView, i: int, t: int) -> bool {
        &&& self.hit_by(ray, i, t)
        &&& forall|j: int, u: int| self.hit_by(ray, j, u) ==> t <= u
        &&& forall|j: int| 0 <= j < i ==> !self.hit_by(ray, j, t)
    }

    /// What the ray meets first: the index of the object and the distance,
    /// or nothing where the ray meets no object.
    pub open spec fn nearest(self, ray: RayView) -> Option<(int, int)> {
        if self.meets_any(ray) {
            Some(choose|p: (int, int)| self.is_nearest(ray, p.0, p.1))
        } else {
            None
        }
    }

    /// The colour that comes back along the ray: that of the point it meets
    /// first, or the colour of the background where it meets nothing.
    pub open spec fn color_seen(self, ray: RayView) -> V3 {
        match self.nearest(ray) {
            Some((i, t)) => self.objects[i].color_at(ray.at(t), ray.direction, self),
            None => self.background_color,
        }
    }
}

/// A ray meets at most one object first, at one distance.
pub proof fn lemma_nearest_unique(
    scene: SceneView,
    ray: RayView,
    i1: int,
    t1: int,
    i2: int,
    t2: int,
)
    requires
        scene.is_nearest(ray, i1, t1),
        scene.is_nearest(ray, i2, t2),
    ensures
        i1 == i2,
        t1 == t2,
{
}

/// Where object `i` at distance `t` is what the ray meets first, `nearest`
/// names it.
pub proof fn lemma_nearest_found(scene: SceneView, ray: RayView, i: int, t: int)
    requires
        scene.is_nearest(ray, i, t),
    ensures
        scene.nearest(ray) == Some((i, t)),
{
    assert(scene.hit_by(ray, i, t));
    let p: (int, int) = (i, t);
    assert(scene.is_nearest(ray, p.0, p.1));
    let q: (int, int) = choose|q: (int, int)| scene.is_nearest(ray, q.0, q.1);
    lemma_nearest_unique(scene, ray, i, t, q.0, q.1);
}

/// Among the first `n` objects of the scene, object `i` at distance `t` is
/// what the ray meets first.
spec fn is_nearest_among(scene: SceneView, ray: RayView, n: int, i: int, t: int) -> bool {
    &&& i < n
    &&& scene.hit_by(ray, i, t)
    &&& forall|j: int, u: int| j < n && scene.hit_by(ray, j, u) ==> t <= u
    &&& forall|j: int| 0 <= j < i ==> !scene.hit_by(ray, j, t)
}

/// If the ray meets one of the first `n` objects, it meets one of them
/// first.
proof fn lemma_nearest_among_exists(scene: SceneView, ray: RayView, n: int)
    requires
        0 <= n <= scene.objects.len(),
        exists|i: int, t: int| i < n && scene.hit_by(ray, i, t),
    ensures
        exists|i: int, t: int| is_nearest_among(scene, ray, n, i, t),
    decreases n,
{
    let last: int = n - 1;
    if exists|i: int, t: int| i < last && scene.hit_by(ray, i, t) {
        lemma_nearest_among_exists(scene, ray, last);
        let (i0, t0): (int, int) = choose|i: int, t: int| is_nearest_among(scene, ray, last, i, t);
        if scene.objects[last].hit_distance(ray) matches Some(u) && u < t0 {
            let u: int = scene.objects[last].hit_distance(ray).unwrap();
            assert(scene.hit_by(ray, last, u));
            assert(is_nearest_among(scene, ray, n, last, u));
        } else {
            assert(is_nearest_among(scene, ray, n, i0, t0));
        }
    } else {
        let (i, t): (int, int) = choose|i: int, t: int| i < n && scene.hit_by(ray, i, t);
        assert(i == last);
        assert(is_nearest_among(scene, ray, n, last, t));
    }
}

/// `nearest` is well defined: where the ray meets some object, the index and
/// the distance that it names are those of the object that the ray meets
/// first; where the ray meets none, it names nothing.
pub proof fn lemma_nearest_is_nearest(scene: SceneView, ray: RayView)
    ensures
        match scene.nearest(ray) {
            Some((i, t)) => scene.is_nearest(ray, i, t) && 0 < t,
            None => !scene.meets_any(ray),
        },
{
    if scene.meets_any(ray) {
        let (i, t): (int, int) = choose|i: int, t: int| scene.hit_by(ray, i, t);
        assert(i < scene.objects.len() && scene.hit_by(ray, i, t));
        lemma_nearest_among_exists(scene, ray, scene.objects.len() as int);
        let (i0, t0): (int, int) = choose|i: int, t: int|
            is_nearest_among(scene, ray, scene.objects.len() as int, i, t);
        assert(scene.is_nearest(ray, i0, t0));
        lemma_nearest_found(scene, ray, i0, t0);
        crate::objects::lemma_hit_positive(scene.objects[i0], ray);
    }
}

/// A ray that misses every object of the scene shows the background.
pub proof fn lemma_miss_shows_background(scene: SceneView, ray: RayView)
    requires
        forall|i: int| 0 <= i < scene.objects.len() ==> scene.objects[i].hit_distance(ray) is None,
    ensures
        scene.color_seen(ray) == scene.background_color,
{
}

/// In a scene without objects every ray shows the background.
pub proof fn lemma_empty_scene_shows_background(scene: SceneView, ray: RayView)
    requires
        scene.objects.len() == 0,
    ensures
        scene.color_seen(ray) == scene.background_color,
{
}

impl SceneView {
    /// The distance at which the ray first meets an object of the scene.
    pub open spec fn nearest_distance(self, ray: RayView) -> Option<int> {
        match self.nearest(ray) {
            Some((i, t)) => Some(t),
            None => None,
        }
    }

    /// The point at which the ray first meets an object of the scene.
    pub open spec fn nearest_point(self, ray: RayView) -> Option<V3> {
        match self.nearest(ray) {
            Some((i, t)) => Some(ray.at(t)),
            None => None,
        }
    }

    /// The object that the ray meets first.
    pub open spec fn nearest_object(self, ray: RayView) -> Option<PrimitiveView> {
        match self.nearest(ray) {
            Some((i, t)) => Some(self.objects[i]),
            None => None,
        }
    }

    /// No two different objects of the scene are met by the ray at one and
    /// the same distance.
    pub open spec fn no_tie(self, ray: RayView) -> bool {
        forall|i: int, j: int, t: int|
            self.hit_by(ray, i, t) && self.hit_by(ray, j, t) ==> self.objects[i] == self.objects[j]
    }

    /// `other` is this scene with its objects in another order.
    pub open spec fn reordered_as(self, other: SceneView) -> bool {
        &&& self.direction_to_light == other.direction_to_light
        &&& self.light_color == other.light_color
        &&& self.ambient_light == other.ambient_light
        &&& self.background_color == other.background_color
        &&& self.objects.to_multiset() == other.objects.to_multiset()
    }

    /// Every object of this scene is an object of `other`, which has the same
    /// light.
    pub open spec fn within_scene(self, other: SceneView) -> bool {
        &&& self.direction_to_light == other.direction_to_light
        &&& self.light_color == other.light_color
        &&& self.ambient_light == other.ambient_light
        &&& forall|i: int|
            0 <= i < self.objects.len() ==> other.objects.contains(#[trigger] self.objects[i])
    }
}

/// What a ray meets in a scene, it meets in every scene that holds the same
/// objects and more.
pub proof fn lemma_hit_carries_over(
    small: SceneView,
    large: SceneView,
    ray: RayView,
    i: int,
    t: int,
)
    requires
        forall|i: int|
            0 <= i < small.objects.len() ==> large.objects.contains(#[trigger] small.objects[i]),
        small.hit_by(ray, i, t),
    ensures
        exists|j: int| large.hit_by(ray, j, t) && large.objects[j] == small.objects[i],
{
    assert(large.objects.contains(small.objects[i]));
    let j: int = choose|j: int|
        0 <= j < large.objects.len() && large.objects[j] == small.objects[i];
    assert(large.hit_by(ray, j, t));
}

/// The objects of a scene in another order are the same objects.
proof fn lemma_reordered_holds_all(s1: SceneView, s2: SceneView)
    requires
        s1.objects.to_multiset() == s2.objects.to_multiset(),
    ensures
        forall|i: int| 0 <= i < s1.objects.len() ==> s2.objects.contains(#[trigger] s1.objects[i]),
{
    s1.objects.to_multiset_ensures();
    s2.objects.to_multiset_ensures();
    assert forall|i: int| 0 <= i < s1.objects.len() implies s2.objects.contains(
        #[trigger] s1.objects[i],
    ) by {
        let object: PrimitiveView = s1.objects[i];
        assert(s1.objects.contains(object));
        assert(s1.objects.to_multiset().count(object) > 0);
        assert(s2.objects.to_multiset().count(object) > 0);
    }
}

/// The nearest point does not depend on the order of the objects: in two
/// scenes that hold the same objects in different orders, a ray meets
/// something in both or in neither, and at the same distance, hence at the
/// same point. Where no two different objects are met at one and the same
/// distance, the object that is met first is the same one, too.
pub proof fn lemma_nearest_order_independent(s1: SceneView, s2: SceneView, ray: RayView)
    requires
        s1.objects.to_multiset() == s2.objects.to_multiset(),
    ensures
        s1.meets_any(ray) == s2.meets_any(ray),
        s1.nearest_distance(ray) == s2.nearest_distance(ray),
        s1.nearest_point(ray) == s2.nearest_point(ray),
        s1.no_tie(ray) ==> s1.nearest_object(ray) == s2.nearest_object(ray),
{
    lemma_reordered_holds_all(s1, s2);
    lemma_reordered_holds_all(s2, s1);
    lemma_nearest_is_nearest(s1, ray);
    lemma_nearest_is_nearest(s2, ray);
    if s1.meets_any(ray) {
        let (i1, t1): (int, int) = s1.nearest(ray).unwrap();
        lemma_hit_carries_over(s1, s2, ray, i1, t1);
        let j2: int = choose|j: int| s2.hit_by(ray, j, t1) && s2.objects[j] == s1.objects[i1];
        assert(s2.hit_by(ray, j2, t1));
        let (i2, t2): (int, int) = s2.nearest(ray).unwrap();
        lemma_hit_carries_over(s2, s1, ray, i2, t2);
        let j1: int = choose|j: int| s1.hit_by(ray, j, t2) && s1.objects[j] == s2.objects[i2];
        assert(s1.hit_by(ray, j1, t2));
        assert(t1 == t2);
        if s1.no_tie(ray) {
            assert(s1.objects[j1] == s1.objects[i1]);
        }
    } else if s2.meets_any(ray) {
        let (i2, t2): (int, int) = s2.nearest(ray).unwrap();
        lemma_hit_carries_over(s2, s1, ray, i2, t2);
        let j1: int = choose|j: int| s1.hit_by(ray, j, t2) && s1.objects[j] == s2.objects[i2];
        assert(s1.hit_by(ray, j1, t2));
    }
}

/// The colour seen along a ray does not depend on the order of the objects,
/// where no two different objects are met at one and the same distance.
pub proof fn lemma_color_order_independent(s1: SceneView, s2: SceneView, ray: RayView)
    requires
        s1.reordered_as(s2),
        s1.no_tie(ray),
    ensures
        s1.color_seen(ray) == s2.color_seen(ray),
{
    lemma_nearest_order_independent(s1, s2, ray);
    lemma_nearest_is_nearest(s1, ray);
    lemma_nearest_is_nearest(s2, ray);
    if s1.meets_any(ray) {
        let (i1, t1): (int, int) = s1.nearest(ray).unwrap();
        let (i2, t2): (int, int) = s2.nearest(ray).unwrap();
        let object: PrimitiveView = s1.objects[i1];
        assert(s2.objects[i2] == object);
        let shadow: RayView = object.shadow_ray(ray.at(t1), s1);
        assert(shadow == object.shadow_ray(ray.at(t2), s2));
        lemma_nearest_order_independent(s1, s2, shadow);
    }
}

/// Adding objects to a scene never brings light to a point: a point that is
/// in shadow stays in shadow, and the colour of a point either stays what it
/// was or turns black.
pub proof fn lemma_shadow_monotone(
    small: SceneView,
    large: SceneView,
    object: PrimitiveView,
    point: V3,
    view: V3,
)
    requires
        small.within_scene(large),
    ensures
        small.meets_any(object.shadow_ray(point, small)) ==> large.meets_any(
            object.shadow_ray(point, large),
        ),
        object.color_at(point, view, large) == object.color_at(point, view, small)
            || object.color_at(point, view, large) == V3::zero(),
{
    let shadow: RayView = object.shadow_ray(point, small);
    assert(shadow == object.shadow_ray(point, large));
    if small.meets_any(shadow) {
        let (i, t): (int, int) = choose|i: int, t: int| small.hit_by(shadow, i, t);
        lemma_hit_carries_over(small, large, shadow, i, t);
    }
}

/// Where neither the light nor the material is negative, adding objects to a
/// scene never brightens a point: no channel of its colour grows.
pub proof fn lemma_shadow_never_brightens(
    small: SceneView,
    large: SceneView,
    object: PrimitiveView,
    point: V3,
    view: V3,
)
    requires
        small.within_scene(large),
        small.light_color.nonnegative(),
        small.ambient_light.nonnegative(),
        object.material().k_a >= 0,
        object.material().k_d >= 0,
        object.material().k_s >= 0,
        object.material().o_d.nonnegative(),
        object.material().o_s.nonnegative(),
    ensures
        object.color_at(point, view, small).nonnegative(),
        object.color_at(point, view, large).at_most(object.color_at(point, view, small)),
{
    lemma_shadow_monotone(small, large, object, point, view);
    crate::material::lemma_phong_nonnegative(
        object.material(),
        object.unit_normal(point),
        view,
        small.direction_to_light,
        small.light_color,
        small.ambient_light,
    );
}

/// The first scene, as a mathematical value.
pub open spec fn scene_1() -> SceneView {
    SceneView {
        direction_to_light: V3::new(0, 1_000_000, 0),
        light_color: V3::new(1_000_000, 1_000_000, 1_000_000),
        ambient_light: V3::new(0, 0, 0),
        background_color: V3::new(200_000, 200_000, 200_000),
        objects: seq![
            PrimitiveView::Sphere(
                SphereView {
                    center: V3::new(0, 300_000, -1_000_000),
                    radius: 250_000,
                    material: MaterialView {
                        k_d: 0,
                        k_s: 100_000,
                        k_a: 100_000,
                        k_gls: 10,
                        o_d: V3::new(750_000, 750_000, 750_000),
                        o_s: V3::new(1_000_000, 1_000_000, 1_000_000),
                        refl: 900_000,
                    },
                },
            ),
            PrimitiveView::Triangle(
                TriangleView {
                    a: V3::new(0, -700_000, -500_000),
                    b: V3::new(1_000_000, 400_000, -1_000_000),
                    c: V3::new(0, -700_000, -1_500_000),
                    material: MaterialView {
                        k_d: 900_000,
                        k_s: 1_000_000,
                        k_a: 100_000,
                        k_gls: 4,
                        o_d: V3::new(0, 0, 1_000_000),
                        o_s: V3::new(1_000_000, 1_000_000, 1_000_000),
                        refl: 0,
                    },
                },
            ),
            PrimitiveView::Triangle(
                TriangleView {
                    a: V3::new(0, -700_000, -500_000),
                    b: V3::new(0, -700_000, -1_500_000),
                    c: V3::new(-1_000_000, 400_000, -1_000_000),
                    material: MaterialView {
                        k_d: 900_000,
                        k_s: 1_000_000,
                        k_a: 100_000,
                        k_gls: 4,
                        o_d: V3::new(1_000_000, 1_000_000, 0),
                        o_s: V3::new(1_000_000, 1_000_000, 1_000_000),
                        refl: 0,
                    },
                },
            ),
        ],
    }
}

/// The first scene: a grey sphere over two triangles, one blue and one
/// yellow, that meet along their lower side; the light stands straight
/// above.
pub fn get_scene_1() -> (scene: Scene)
    ensures
        scene@.wf(),
        scene@.direction_to_light == scene_1().direction_to_light,
        scene@.light_color == scene_1().light_color,
        scene@.ambient_light == scene_1().ambient_light,
        scene@.background_color == scene_1().background_color,
        scene@.objects == scene_1().objects,
{
    let mut objects: Vec<Primitive> = Vec::new();
    objects.push(
        Primitive::Sphere(
            Sphere {
                center: Vec3::new(0, 300_000, -1_000_000),
                radius: 250_000,
                material: Material {
                    k_d: 0,
                    k_s: 100_000,
                    k_a: 100_000,
                    k_gls: 10,
                    o_d: Vec3::new(750_000, 750_000, 750_000),
                    o_s: Vec3::new(1_000_000, 1_000_000, 1_000_000),
                    refl: 900_000,
                },
            },
        ),
    );
    objects.push(
        Primitive::Triangle(
            Triangle {
                vertices: [
                    Vec3::new(0, -700_000, -500_000),
                    Vec3::new(1_000_000, 400_000, -1_000_000),
                    Vec3::new(0, -700_000, -1_500_000),
                ],
                material: Material {
                    k_d: 900_000,
                    k_s: 1_000_000,
                    k_a: 100_000,
                    k_gls: 4,
                    o_d: Vec3::new(0, 0, 1_000_000),
                    o_s: Vec3::new(1_000_000, 1_000_000, 1_000_000),
                    refl: 0,
                },
            },
        ),
    );
    objects.push(
        Primitive::Triangle(
            Triangle {
                vertices: [
                    Vec3::new(0, -700_000, -500_000),
                    Vec3::new(0, -700_000, -1_500_000),
                    Vec3::new(-1_000_000, 400_000, -1_000_000),
                ],
                material: Material {
                    k_d: 900_000,
                    k_s: 1_000_000,
                    k_a: 100_000,
                    k_gls: 4,
                    o_d: Vec3::new(1_000_000, 1_000_000, 0),
                    o_s: Vec3::new(1_000_000, 1_000_000, 1_000_000),
                    refl: 0,
                },
            },
        ),
    );
    let scene = Scene {
        direction_to_light: Vec3::new(0, 1_000_000, 0),
        light_color: Vec3::new(1_000_000, 1_000_000, 1_000_000),
        ambient_light: Vec3::new(0, 0, 0),
        background_color: Vec3::new(200_000, 200_000, 200_000),
        objects,
    };
    proof {
        let described: Seq<PrimitiveView> = scene_1().objects;
        assert(scene@.objects.len() == described.len());
        assert forall|i: int| 0 <= i < described.len() implies scene@.objects[i] == described[i]
            && described[i].wf() by {
            assert(scene@.objects[i] == scene.objects@[i]@);
        }
        assert(scene@.objects =~= described);
    }
    scene
}

/// The second scene, as a mathematical value.
pub open spec fn scene_2() -> SceneView {
    SceneView {
        direction_to_light: V3::new(1_000_000, 0, 0),
        light_color: V3::new(1_000_000, 1_000_000, 1_000_000),
        ambient_light: V3::new(100_000, 100_000, 100_000),
        background_color: V3::new(200_000, 200_000, 200_000),
        objects: seq![
            PrimitiveView::Sphere(
                SphereView {
                    center: V3::new(500_000, 0, -150_000),
                    radius: 50_000,
                    material: MaterialView {
                        k_d: 800_000,
                        k_s: 100_000,
                        k_a: 300_000,
                        k_gls: 4,
                        o_d: V3::new(1_000_000, 1_000_000, 1_000_000),
                        o_s: V3::new(1_000_000, 1_000_000, 1_000_000),
                        refl: 0,
                    },
                },
            ),
            PrimitiveView::Sphere(
                SphereView {
                    center: V3::new(300_000, 0, -100_000),
                    radius: 80_000,
                    material: MaterialView {
                        k_d: 800_000,
                        k_s: 800_000,
                        k_a: 100_000,
                        k_gls: 32,
                        o_d: V3::new(1_000_000, 0, 0),
                        o_s: V3::new(500_000, 1_000_000, 500_000),
                        refl: 0,
                    },
                },
            ),
            PrimitiveView::Sphere(
                SphereView {
                    center: V3::new(-600_000, 0, 0),
                    radius: 300_000,
                    material: MaterialView {
                        k_d: 700_000,
                        k_s: 500_000,
                        k_a: 100_000,
                        k_gls: 64,
                        o_d: V3::new(0, 1_000_000, 0),
                        o_s: V3::new(500_000, 1_000_000, 500_000),
                        refl: 0,
                    },
                },
            ),
            PrimitiveView::Sphere(
                SphereView {
                    center: V3::new(100_000, -550_000, 250_000),
                    radius: 300_000,
                    material: MaterialView {
                        k_d: 0,
                        k_s: 100_000,
                        k_a: 100_000,
                        k_gls: 10,
                        o_d: V3::new(750_000, 750_000, 750_000),
                        o_s: V3::new(1_000_000, 1_000_000, 1_000_000),
                        refl: 900_000,
                    },
                },
            ),
            PrimitiveView::Triangle(
                TriangleView {
                    a: V3::new(300_000, -300_000, -400_000),
                    b: V3::new(0, 300_000, -100_000),
                    c: V3::new(-300_000, -300_000, 200_000),
                    material: MaterialView {
                        k_d: 900_000,
                        k_s: 900_000,
                        k_a: 100_000,
                        k_gls: 32,
                        o_d: V3::new(0, 0, 1_000_000),
                        o_s: V3::new(1_000_000, 1_000_000, 1_000_000),
                        refl: 0,
                    },
                },
            ),
            PrimitiveView::Triangle(
                TriangleView {
                    a: V3::new(-200_000, 100_000, 100_000),
                    b: V3::new(-200_000, -500_000, 200_000),
                    c: V3::new(-200_000, 100_000, -300_000),
                    material: MaterialView {
                        k_d: 900_000,
                        k_s: 500_000,
                        k_a: 100_000,
                        k_gls: 4,
                        o_d: V3::new(1_000_000, 1_000_000, 0),
                        o_s: V3::new(1_000_000, 1_000_000, 1_000_000),
                        refl: 0,
                    },
                },
            ),
        ],
    }
}

/// The second scene: four spheres, white, red, green and grey, around a blue
/// and a yellow triangle; the light comes from the right.
pub fn get_scene_2() -> (scene: Scene)
    ensures
        scene@.wf(),
        scene@.direction_to_light == scene_2().direction_to_light,
        scene@.light_color == scene_2().light_color,
        scene@.ambient_light == scene_2().ambient_light,
        scene@.background_color == scene_2().background_color,
        scene@.objects == scene_2().objects,
{
    let mut objects: Vec<Primitive> = Vec::new();
    objects.push(
        Primitive::Sphere(
            Sphere {
                center: Vec3::new(500_000, 0, -150_000),
                radius: 50_000,
                material: Material {
                    k_d: 800_000,
                    k_s: 100_000,
                    k_a: 300_000,
                    k_gls: 4,
                    o_d: Vec3::new(1_000_000, 1_000_000, 1_000_000),
                    o_s: Vec3::new(1_000_000, 1_000_000, 1_000_000),
                    refl: 0,
                },
            },
        ),
    );
    objects.push(
        Primitive::Sphere(
            Sphere {
                center: Vec3::new(300_000, 0, -100_000),
                radius: 80_000,
                material: Material {
                    k_d: 800_000,
                    k_s: 800_000,
                    k_a: 100_000,
                    k_gls: 32,
                    o_d: Vec3::new(1_000_000, 0, 0),
                    o_s: Vec3::new(500_000, 1_000_000, 500_000),
                    refl: 0,
                },
            },
        ),
    );
    objects.push(
        Primitive::Sphere(
            Sphere {
                center: Vec3::new(-600_000, 0, 0),
                radius: 300_000,
                material: Material {
                    k_d: 700_000,
                    k_s: 500_000,
                    k_a: 100_000,
                    k_gls: 64,
                    o_d: Vec3::new(0, 1_000_000, 0),
                    o_s: Vec3::new(500_000, 1_000_000, 500_000),
                    refl: 0,
                },
            },
        ),
    );
    objects.push(
        Primitive::Sphere(
            Sphere {
                center: Vec3::new(100_000, -550_000, 250_000),
                radius: 300_000,
                material: Material {
                    k_d: 0,
                    k_s: 100_000,
                    k_a: 100_000,
                    k_gls: 10,
                    o_d: Vec3::new(750_000, 750_000, 750_000),
                    o_s: Vec3::new(1_000_000, 1_000_000, 1_000_000),
                    refl: 900_000,
                },
            },
        ),
    );
    objects.push(
        Primitive::Triangle(
            Triangle {
                vertices: [
                    Vec3::new(300_000, -300_000, -400_000),
                    Vec3::new(0, 300_000, -100_000),
                    Vec3::new(-300_000, -300_000, 200_000),
                ],
                material: Material {
                    k_d: 900_000,
                    k_s: 900_000,
                    k_a: 100_000,
                    k_gls: 32,
                    o_d: Vec3::new(0, 0, 1_000_000),
                    o_s: Vec3::new(1_000_000, 1_000_000, 1_000_000),
                    refl: 0,
                },
            },
        ),
    );
    objects.push(
        Primitive::Triangle(
            Triangle {
                vertices: [
                    Vec3::new(-200_000, 100_000, 100_000),
                    Vec3::new(-200_000, -500_000, 200_000),
                    Vec3::new(-200_000, 100_000, -300_000),
                ],
                material: Material {
                    k_d: 900_000,
                    k_s: 500_000,
                    k_a: 100_000,
                    k_gls: 4,
                    o_d: Vec3::new(1_000_000, 1_000_000, 0),
                    o_s: Vec3::new(1_000_000, 1_000_000, 1_000_000),
                    refl: 0,
                },
            },
        ),
    );
    let scene = Scene {
        direction_to_light: Vec3::new(1_000_000, 0, 0),
        light_color: Vec3::new(1_000_000, 1_000_000, 1_000_000),
        ambient_light: Vec3::new(100_000, 100_000, 100_000),
        background_color: Vec3::new(200_000, 200_000, 200_000),
        objects,
    };
    proof {
        let described: Seq<PrimitiveView> = scene_2().objects;
        assert(scene@.objects.len() == described.len());
        assert forall|i: int| 0 <= i < described.len() implies scene@.objects[i] == described[i]
            && described[i].wf() by {
            assert(scene@.objects[i] == scene.objects@[i]@);
        }
        assert(scene@.objects =~= described);
    }
    scene
}

/// The third scene, as a mathematical value.
pub open spec fn scene_3() -> SceneView {
    SceneView {
        direction_to_light: V3::new(1_000_000, 1_000_000, 1_000_000),
        light_color: V3::new(1_000_000, 1_000_000, 1_000_000),
        ambient_light: V3::new(200_000, 200_000, 200_000),
        background_color: V3::new(200_000, 200_000, 200_000),
        objects: seq![
            PrimitiveView::Triangle(
                TriangleView {
                    a: V3::new(-400_000, 0, -1_000_000),
                    b: V3::new(-600_000, 180_000, 0),
                    c: V3::new(-600_000, -180_000, 0),
                    material: MaterialView {
                        k_d: 900_000,
                        k_s: 1_000_000,
                        k_a: 100_000,
                        k_gls: 4,
                        o_d: V3::new(1_000_000, 0, 0),
                        o_s: V3::new(1_000_000, 1_000_000, 1_000_000),
                        refl: 900_000,
                    },
                },
            ),
            PrimitiveView::Triangle(
                TriangleView {
                    a: V3::new(-200_000, 0, -1_000_000),
                    b: V3::new(-400_000, 180_000, 0),
                    c: V3::new(-400_000, -180_000, 0),
                    material: MaterialView {
                        k_d: 900_000,
                        k_s: 1_000_000,
                        k_a: 100_000,
                        k_gls: 4,
                        o_d: V3::new(1_000_000, 0, 0),
                        o_s: V3::new(1_000_000, 1_000_000, 1_000_000),
                        refl: 900_000,
                    },
                },
            ),
            PrimitiveView::Triangle(
                TriangleView {
                    a: V3::new(0, 0, -1_000_000),
                    b: V3::new(-200_000, 180_000, 0),
                    c: V3::new(-200_000, -180_000, 0),
                    material: MaterialView {
                        k_d: 900_000,
                        k_s: 1_000_000,
                        k_a: 100_000,
                        k_gls: 4,
                        o_d: V3::new(1_000_000, 0, 0),
                        o_s: V3::new(1_000_000, 1_000_000, 1_000_000),
                        refl: 900_000,
                    },
                },
            ),
            PrimitiveView::Triangle(
                TriangleView {
                    a: V3::new(200_000, 0, -1_000_000),
                    b: V3::new(0, 180_000, 0),
                    c: V3::new(0, -180_000, 0),
                    material: MaterialView {
                        k_d: 900_000,
                        k_s: 1_000_000,
                        k_a: 100_000,
                        k_gls: 4,
                        o_d: V3::new(1_000_000, 0, 0),
                        o_s: V3::new(1_000_000, 1_000_000, 1_000_000),
                        refl: 900_000,
                    },
                },
            ),
            PrimitiveView::Triangle(
                TriangleView {
                    a: V3::new(200_000, 200_000, -1_000_000),
                    b: V3::new(200_000, -200_000, -1_000_000),
                    c: V3::new(400_000, -180_000, -1_000_000),
                    material: MaterialView {
                        k_d: 900_000,
                        k_s: 1_000_000,
                        k_a: 100_000,
                        k_gls: 4,
                        o_d: V3::new(1_000_000, 0, 0),
                        o_s: V3::new(1_000_000, 1_000_000, 1_000_000),
                        refl: 900_000,
                    },
                },
            ),
            PrimitiveView::Sphere(
                SphereView {
                    center: V3::new(0, 0, -500_000),
                    radius: 50_000,
                    material: MaterialView {
                        k_d: 900_000,
                        k_s: 1_000_000,
                        k_a: 100_000,
                        k_gls: 4,
                        o_d: V3::new(1_000_000, 0, 0),
                        o_s: V3::new(1_000_000, 1_000_000, 1_000_000),
                        refl: 900_000,
                    },
                },
            ),
            PrimitiveView::Sphere(
                SphereView {
                    center: V3::new(200_000, 200_000, -500_000),
                    radius: 100_000,
                    material: MaterialView {
                        k_d: 800_000,
                        k_s: 100_000,
                        k_a: 300_000,
                        k_gls: 4,
                        o_d: V3::new(0, 0, 1_000_000),
                        o_s: V3::new(1_000_000, 1_000_000, 1_000_000),
                        refl: 1_000_000,
                    },
                },
            ),
            PrimitiveView::Sphere(
                SphereView {
                    center: V3::new(200_000, 100_000, -500_000),
                    radius: 80_000,
                    material: MaterialView {
                        k_d: 800_000,
                        k_s: 100_000,
                        k_a: 300_000,
                        k_gls: 32,
                        o_d: V3::new(0, 1_000_000, 0),
                        o_s: V3::new(1_000_000, 1_000_000, 1_000_000),
                        refl: 1_000_000,
                    },
                },
            ),
            PrimitiveView::Sphere(
                SphereView {
                    center: V3::new(200_000, 20_000, -500_000),
                    radius: 60_000,
                    material: MaterialView {
                        k_d: 800_000,
                        k_s: 100_000,
                        k_a: 300_000,
                        k_gls: 64,
                        o_d: V3::new(1_000_000, 0, 0),
                        o_s: V3::new(1_000_000, 1_000_000, 1_000_000),
                        refl: 1_000_000,
                    },
                },
            ),
            PrimitiveView::Sphere(
                SphereView {
                    center: V3::new(0, 1_000_000, 0),
                    radius: 750_000,
                    material: MaterialView {
                        k_d: 800_000,
                        k_s: 100_000,
                        k_a: 300_000,
                        k_gls: 64,
                        o_d: V3::new(0, 0, 0),
                        o_s: V3::new(1_000_000, 1_000_000, 1_000_000),
                        refl: 1_000_000,
                    },
                },
            ),
            PrimitiveView::Sphere(
                SphereView {
                    center: V3::new(0, -1_000_000, 0),
                    radius: 750_000,
                    material: MaterialView {
                        k_d: 800_000,
                        k_s: 100_000,
                        k_a: 300_000,
                        k_gls: 64,
                        o_d: V3::new(0, 0, 0),
                        o_s: V3::new(1_000_000, 1_000_000, 1_000_000),
                        refl: 1_000_000,
                    },
                },
            ),
        ],
    }
}

/// The third scene: five red triangles and six spheres; the light comes
/// from above, from the right and from behind the eye.
pub fn get_scene_3() -> (scene: Scene)
    ensures
        scene@.wf(),
        scene@.direction_to_light == scene_3().direction_to_light,
        scene@.light_color == scene_3().light_color,
        scene@.ambient_light == scene_3().ambient_light,
        scene@.background_color == scene_3().background_color,
        scene@.objects == scene_3().objects,
{
    let mut objects: Vec<Primitive> = Vec::new();
    objects.push(
        Primitive::Triangle(
            Triangle {
                vertices: [
                    Vec3::new(-400_000, 0, -1_000_000),
                    Vec3::new(-600_000, 180_000, 0),
                    Vec3::new(-600_000, -180_000, 0),
                ],
                material: Material {
                    k_d: 900_000,
                    k_s: 1_000_000,
                    k_a: 100_000,
                    k_gls: 4,
                    o_d: Vec3::new(1_000_000, 0, 0),
                    o_s: Vec3::new(1_000_000, 1_000_000, 1_000_000),
                    refl: 900_000,
                },
            },
        ),
    );
    objects.push(
        Primitive::Triangle(
            Triangle {
                vertices: [
                    Vec3::new(-200_000, 0, -1_000_000),
                    Vec3::new(-400_000, 180_000, 0),
                    Vec3::new(-400_000, -180_000, 0),
                ],
                material: Material {
                    k_d: 900_000,
                    k_s: 1_000_000,
                    k_a: 100_000,
                    k_gls: 4,
                    o_d: Vec3::new(1_000_000, 0, 0),
                    o_s: Vec3::new(1_000_000, 1_000_000, 1_000_000),
                    refl: 900_000,
                },
            },
        ),
    );
    objects.push(
        Primitive::Triangle(
            Triangle {
                vertices: [
                    Vec3::new(0, 0, -1_000_000),
                    Vec3::new(-200_000, 180_000, 0),
                    Vec3::new(-200_000, -180_000, 0),
                ],
                material: Material {
                    k_d: 900_000,
                    k_s: 1_000_000,
                    k_a: 100_000,
                    k_gls: 4,
                    o_d: Vec3::new(1_000_000, 0, 0),
                    o_s: Vec3::new(1_000_000, 1_000_000, 1_000_000),
                    refl: 900_000,
                },
            },
        ),
    );
    objects.push(
        Primitive::Triangle(
            Triangle {
                vertices: [
                    Vec3::new(200_000, 0, -1_000_000),
                    Vec3::new(0, 180_000, 0),
                    Vec3::new(0, -180_000, 0),
                ],
                material: Material {
                    k_d: 900_000,
                    k_s: 1_000_000,
                    k_a: 100_000,
                    k_gls: 4,
                    o_d: Vec3::new(1_000_000, 0, 0),
                    o_s: Vec3::new(1_000_000, 1_000_000, 1_000_000),
                    refl: 900_000,
                },
            },
        ),
    );
    objects.push(
        Primitive::Triangle(
            Triangle {
                vertices: [
                    Vec3::new(200_000, 200_000, -1_000_000),
                    Vec3::new(200_000, -200_000, -1_000_000),
                    Vec3::new(400_000, -180_000, -1_000_000),
                ],
                material: Material {
                    k_d: 900_000,
                    k_s: 1_000_000,
                    k_a: 100_000,
                    k_gls: 4,
                    o_d: Vec3::new(1_000_000, 0, 0),
                    o_s: Vec3::new(1_000_000, 1_000_000, 1_000_000),
                    refl: 900_000,
                },
            },
        ),
    );
    objects.push(
        Primitive::Sphere(
            Sphere {
                center: Vec3::new(0, 0, -500_000),
                radius: 50_000,
                material: Material {
                    k_d: 900_000,
                    k_s: 1_000_000,
                    k_a: 100_000,
                    k_gls: 4,
                    o_d: Vec3::new(1_000_000, 0, 0),
                    o_s: Vec3::new(1_000_000, 1_000_000, 1_000_000),
                    refl: 900_000,
                },
            },
        ),
    );
    objects.push(
        Primitive::Sphere(
            Sphere {
                center: Vec3::new(200_000, 200_000, -500_000),
                radius: 100_000,
                material: Material {
                    k_d: 800_000,
                    k_s: 100_000,
                    k_a: 300_000,
                    k_gls: 4,
                    o_d: Vec3::new(0, 0, 1_000_000),
                    o_s: Vec3::new(1_000_000, 1_000_000, 1_000_000),
                    refl: 1_000_000,
                },
            },
        ),
    );
    objects.push(
        Primitive::Sphere(
            Sphere {
                center: Vec3::new(200_000, 100_000, -500_000),
                radius: 80_000,
                material: Material {
                    k_d: 800_000,
                    k_s: 100_000,
                    k_a: 300_000,
                    k_gls: 32,
                    o_d: Vec3::new(0, 1_000_000, 0),
                    o_s: Vec3::new(1_000_000, 1_000_000, 1_000_000),
                    refl: 1_000_000,
                },
            },
        ),
    );
    objects.push(
        Primitive::Sphere(
            Sphere {
                center: Vec3::new(200_000, 20_000, -500_000),
                radius: 60_000,
                material: Material {
                    k_d: 800_000,
                    k_s: 100_000,
                    k_a: 300_000,
                    k_gls: 64,
                    o_d: Vec3::new(1_000_000, 0, 0),
                    o_s: Vec3::new(1_000_000, 1_000_000, 1_000_000),
                    refl: 1_000_000,
                },
            },
        ),
    );
    objects.push(
        Primitive::Sphere(
            Sphere {
                center: Vec3::new(0, 1_000_000, 0),
                radius: 750_000,
                material: Material {
                    k_d: 800_000,
                    k_s: 100_000,
                    k_a: 300_000,
                    k_gls: 64,
                    o_d: Vec3::new(0, 0, 0),
                    o_s: Vec3::new(1_000_000, 1_000_000, 1_000_000),
                    refl: 1_000_000,
                },
            },
        ),
    );
    objects.push(
        Primitive::Sphere(
            Sphere {
                center: Vec3::new(0, -1_000_000, 0),
                radius: 750_000,
                material: Material {
                    k_d: 800_000,
                    k_s: 100_000,
                    k_a: 300_000,
                    k_gls: 64,
                    o_d: Vec3::new(0, 0, 0),
                    o_s: Vec3::new(1_000_000, 1_000_000, 1_000_000),
                    refl: 1_000_000,
                },
            },
        ),
    );
    let scene = Scene {
        direction_to_light: Vec3::new(1_000_000, 1_000_000, 1_000_000),
        light_color: Vec3::new(1_000_000, 1_000_000, 1_000_000),
        ambient_light: Vec3::new(200_000, 200_000, 200_000),
        background_color: Vec3::new(200_000, 200_000, 200_000),
        objects,
    };
    proof {
        let described: Seq<PrimitiveView> = scene_3().objects;
        assert(scene@.objects.len() == described.len());
        assert forall|i: int| 0 <= i < described.len() implies scene@.objects[i] == described[i]
            && described[i].wf() by {
            assert(scene@.objects[i] == scene.objects@[i]@);
        }
        assert(scene@.objects =~= described);
    }
    scene
}

} // verus!
