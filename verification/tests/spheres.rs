use raytracer::fixed::ONE;
use raytracer::geometry::Vec3;
use raytracer::objects::{Material, Object, Primitive, Sphere};
use raytracer::rays::Ray;

fn plain() -> Material {
    Material {
        k_d: 700_000,
        k_s: 500_000,
        k_a: 100_000,
        k_gls: 4,
        o_d: Vec3::new(ONE, 500_000, 0),
        o_s: Vec3::new(ONE, ONE, ONE),
        refl: 0,
    }
}

fn sphere(center: Vec3, radius: i64) -> Sphere {
    Sphere { center, radius, material: plain() }
}

/// The distance and the point at which `ray` meets `s`, with nothing nearer
/// known.
fn hit(s: &Sphere, ray: &Ray) -> Option<(i64, Vec3)> {
    let mut t = i64::MAX;
    s.intersected_by(ray, &mut t).map(|p| (t, p))
}

#[test]
fn ray_toward_a_sphere_meets_its_near_side() {
    let s = sphere(Vec3::new(0, 0, -2 * ONE), ONE);
    let ray = Ray::new(Vec3::zeros(), Vec3::new(0, 0, -1));
    assert_eq!(hit(&s, &ray), Some((ONE, Vec3::new(0, 0, -ONE))));
    assert_eq!(s.normal_ugly(Vec3::new(0, 0, -ONE)), Vec3::new(0, 0, ONE));
    assert_eq!(s.normal(Vec3::new(0, 0, -ONE)), Vec3::new(0, 0, ONE));
}

#[test]
fn sphere_behind_the_ray_is_not_met() {
    let s = sphere(Vec3::new(0, 0, -2 * ONE), ONE);
    let ray = Ray::new(Vec3::zeros(), Vec3::new(0, 0, 1));
    assert_eq!(hit(&s, &ray), None);
}

#[test]
fn ray_past_a_sphere_misses_it() {
    let s = sphere(Vec3::new(0, 0, -2 * ONE), ONE);
    let ray = Ray::new(Vec3::new(2 * ONE, 0, 0), Vec3::new(0, 0, -1));
    assert_eq!(hit(&s, &ray), None);
}

#[test]
fn ray_that_grazes_a_sphere() {
    let s = sphere(Vec3::new(0, 0, -2 * ONE), ONE);
    // exactly tangent: the two roots fall together
    let tangent = Ray::new(Vec3::new(ONE, 0, 0), Vec3::new(0, 0, -ONE));
    assert_eq!(hit(&s, &tangent), Some((2 * ONE, Vec3::new(ONE, 0, -2 * ONE))));
    // one unit of resolution further in
    let inner = Ray::new(Vec3::new(999_999, 0, 0), Vec3::new(0, 0, -ONE));
    assert_eq!(hit(&s, &inner), Some((1_998_585, Vec3::new(999_999, 0, -1_998_585))));
    // half way in
    let half = Ray::new(Vec3::new(500_000, 0, 0), Vec3::new(0, 0, -ONE));
    assert_eq!(hit(&s, &half), Some((1_133_974, Vec3::new(500_000, 0, -1_133_974))));
    assert_eq!(s.normal(Vec3::new(500_000, 0, -1_133_974)), Vec3::new(499_999, 0, 866_025));
}

#[test]
fn ray_from_inside_meets_the_sphere_where_it_leaves() {
    let s = sphere(Vec3::new(0, 0, -2 * ONE), ONE);
    let ray = Ray::new(Vec3::new(0, 0, -1_500_000), Vec3::new(0, 0, -1));
    assert_eq!(hit(&s, &ray), Some((1_500_000, Vec3::new(0, 0, -3 * ONE))));
    assert_eq!(s.normal(Vec3::new(0, 0, -3 * ONE)), Vec3::new(0, 0, -ONE));
}

#[test]
fn ray_from_the_center_meets_the_sphere_at_its_radius() {
    let center = Vec3::new(0, 0, -2 * ONE);
    let directions = [
        Vec3::new(1, 2, 3),
        Vec3::new(0, ONE, 0),
        Vec3::new(-5, 0, 0),
        Vec3::new(300_000, -300_000, -2_000_000),
        Vec3::new(-123_456, 654_321, 1),
    ];
    for radius in [1, 7, 400_000, ONE, 123_456_789] {
        let s = sphere(center, radius);
        for direction in directions {
            let ray = Ray::new(center, direction);
            let (t, p) = hit(&s, &ray).unwrap();
            assert_eq!(t, radius);
            assert_eq!(p, ray.at(radius));
        }
    }
}

#[test]
fn normal_of_a_ray_from_the_center_points_along_the_ray() {
    let center = Vec3::new(0, 0, -2 * ONE);
    let s = sphere(center, ONE);
    // along an axis the normal is the direction itself
    let up = Ray::new(center, Vec3::new(0, ONE, 0));
    let (_, p) = hit(&s, &up).unwrap();
    assert_eq!(p, Vec3::new(0, ONE, -2 * ONE));
    assert_eq!(s.normal_ugly(p), Vec3::new(0, ONE, 0));
    assert_eq!(s.normal(p), Vec3::new(0, ONE, 0));
    // elsewhere it is the direction up to rounding
    let slanted = Ray::new(center, Vec3::new(1, 2, 3));
    assert_eq!(*slanted.direction(), Vec3::new(267_261, 534_522, 801_783));
    let (_, p) = hit(&s, &slanted).unwrap();
    assert_eq!(p, Vec3::new(267_261, 534_522, -1_198_217));
    assert_eq!(s.normal_ugly(p), Vec3::new(267_261, 534_522, 801_783));
    assert_eq!(s.normal(p), Vec3::new(267_261, 534_522, 801_783));
    // on a small sphere rounding takes more away, within `ONE / radius + 1`
    let small = sphere(center, 1_000);
    let (t, p) = hit(&small, &slanted).unwrap();
    assert_eq!(t, 1_000);
    assert_eq!(p, Vec3::new(267, 534, -1_999_199));
    let n = small.normal_ugly(p);
    assert_eq!(n, Vec3::new(267_000, 534_000, 801_000));
    let d = slanted.direction();
    assert!((n.x - d.x).abs() <= 1_001 && (n.y - d.y).abs() <= 1_001 && (n.z - d.z).abs() <= 1_001);
}

#[test]
fn unit_normal_of_a_ray_from_the_center_is_its_direction_up_to_rounding() {
    let center = Vec3::new(ONE, -2 * ONE, 3 * ONE);
    let ray = Ray::new(center, Vec3::new(1, 2, -2));
    let d = *ray.direction();
    assert_eq!(d, Vec3::new(333_333, 666_666, -666_666));
    // on a sphere of ordinary size one unit of resolution is lost
    let s = sphere(center, 2_500_000);
    let (_, p) = hit(&s, &ray).unwrap();
    assert_eq!(p, Vec3::new(1_833_332, -333_335, 1_333_335));
    let n = s.normal(p);
    assert_eq!(n, Vec3::new(333_332, 666_666, -666_666));
    assert_eq!(n.dot(&d), 999_997_666_668);
    assert_eq!(n.cross(&d), Vec3::new(0, -666_666, -666_666));
    // on one of eleven units the normal is the direction within the ninth part
    // of one, and what its products with the direction may lack grows with it
    let tiny = sphere(center, 11);
    let slack = ONE / 11 + 1;
    let (_, p) = hit(&tiny, &ray).unwrap();
    assert_eq!(p, Vec3::new(1_000_003, -1_999_993, 2_999_993));
    assert_eq!(tiny.normal_ugly(p), Vec3::new(272_727, 636_363, -636_363));
    let n = tiny.normal(p);
    assert_eq!(n, Vec3::new(290_020, 676_715, -676_715));
    assert_eq!(n.dot(&d), 998_959_001_040);
    assert!(n.dot(&d) >= (ONE * (ONE - 3 * slack - 8)) as i128);
    assert_eq!(n.cross(&d), Vec3::new(0, -32_224_967_775, -32_224_967_775));
    assert!(32_224_967_775 <= ONE * (4 * slack + 2));
    // on one of a single unit nothing is left of it
    let least = sphere(center, 1);
    assert_eq!(hit(&least, &ray), Some((1, center)));
    assert_eq!(least.normal(center), Vec3::zeros());
}

#[test]
fn unit_normal_points_away_from_the_center_at_any_point() {
    let s = sphere(Vec3::zeros(), 2 * ONE);
    // far outside the sphere
    assert_eq!(s.normal_ugly(Vec3::new(5 * ONE, 0, 0)), Vec3::new(2_500_000, 0, 0));
    assert_eq!(s.normal(Vec3::new(5 * ONE, 0, 0)), Vec3::new(ONE, 0, 0));
    assert_eq!(
        s.normal(Vec3::new(-ONE, 2 * ONE, -2 * ONE)),
        Vec3::new(-333_333, 666_666, -666_666)
    );
    // deep inside it, as long as division by the radius leaves something
    assert_eq!(s.normal(Vec3::new(3, 0, 0)), Vec3::new(ONE, 0, 0));
    assert_eq!(s.normal(Vec3::new(-2, 2, 1)), Vec3::new(-707_106, 707_106, 0));
    // nearer to the centre nothing is left
    assert_eq!(s.normal(Vec3::new(1, 0, 0)), Vec3::zeros());
    assert_eq!(s.normal(Vec3::zeros()), Vec3::zeros());
}

#[test]
fn ray_that_leaves_a_sphere_does_not_meet_it() {
    let s = sphere(Vec3::zeros(), ONE);
    let top = Vec3::new(0, 0, ONE);
    // from a point of the sphere, straight away, along the surface and between the two
    assert_eq!(hit(&s, &Ray::new(top, Vec3::new(0, 0, 1))), None);
    assert_eq!(hit(&s, &Ray::new(top, Vec3::new(1, 0, 0))), None);
    assert_eq!(hit(&s, &Ray::new(top, Vec3::new(1, 0, 1))), None);
    // into the sphere the ray meets the other side
    let inward = hit(&s, &Ray::new(top, Vec3::new(1, 0, -1)));
    assert_eq!(inward.map(|h| h.0), Some(1_414_212));
    // from one unit of resolution below the surface it meets the surface at once
    let below = Vec3::new(0, 0, ONE - 1);
    assert_eq!(hit(&s, &Ray::new(below, Vec3::new(0, 0, 1))), Some((1, top)));
}

#[test]
fn sphere_of_radius_two_fifths_seen_from_in_front() {
    let s = sphere(Vec3::zeros(), 400_000);
    let ray = Ray::new(Vec3::new(0, 0, ONE), Vec3::new(0, 0, -ONE));
    let (t, p) = hit(&s, &ray).unwrap();
    assert_eq!(t, 600_000);
    assert_eq!(p, Vec3::new(0, 0, 400_000));
    assert_eq!(s.normal(p), Vec3::new(0, 0, ONE));
}

#[test]
fn nearer_distance_known_hides_the_sphere() {
    let s = sphere(Vec3::new(0, 0, -2 * ONE), ONE);
    let ray = Ray::new(Vec3::zeros(), Vec3::new(0, 0, -1));
    // something nearer is known: the sphere is not reported
    let mut t = 999_999;
    assert_eq!(s.intersected_by(&ray, &mut t), None);
    assert_eq!(t, 999_999);
    // something at the very same distance is known: the sphere does not replace it
    let mut t = ONE;
    assert_eq!(s.intersected_by(&ray, &mut t), None);
    assert_eq!(t, ONE);
    // something farther is known: the sphere replaces it
    let mut t = ONE + 1;
    assert_eq!(s.intersected_by(&ray, &mut t), Some(Vec3::new(0, 0, -ONE)));
    assert_eq!(t, ONE);
    // no distance at all is allowed
    let mut t = 0;
    assert_eq!(s.intersected_by(&ray, &mut t), None);
    assert_eq!(t, 0);
}

#[test]
fn far_side_is_not_taken_when_the_near_side_is_hidden() {
    let s = sphere(Vec3::new(0, 0, -2 * ONE), ONE);
    let ray = Ray::new(Vec3::zeros(), Vec3::new(0, 0, -1));
    // the near side lies at one, the far side at three
    let mut t = 500_000;
    assert_eq!(s.intersected_by(&ray, &mut t), None);
    assert_eq!(t, 500_000);
}

#[test]
fn sphere_as_a_primitive_answers_like_the_sphere() {
    let s = sphere(Vec3::new(0, 0, -2 * ONE), ONE);
    let object = Primitive::Sphere(s);
    let ray = Ray::new(Vec3::new(500_000, 0, 0), Vec3::new(0, 0, -ONE));
    let mut t = i64::MAX;
    assert_eq!(object.intersected_by(&ray, &mut t), Some(Vec3::new(500_000, 0, -1_133_974)));
    assert_eq!(t, 1_133_974);
    assert_eq!(object.normal(Vec3::new(500_000, 0, -1_133_974)), Vec3::new(499_999, 0, 866_025));
    assert_eq!(*object.get_material(), plain());
    assert_eq!(*s.get_material(), plain());
}

#[test]
fn sphere_at_the_edge_of_the_scene() {
    let far = 1_000 * ONE;
    let s = sphere(Vec3::new(far, far, -far), far);
    let ray = Ray::new(Vec3::new(-far, -far, far), Vec3::new(1, 1, -1));
    let (t, p) = hit(&s, &ray).unwrap();
    assert_eq!(*ray.direction(), Vec3::new(577_350, 577_350, -577_350));
    assert_eq!(t, 2_464_105_595);
    assert_eq!(p, Vec3::new(422_651_365, 422_651_365, -422_651_365));
    assert_eq!(p, ray.at(t));
}
