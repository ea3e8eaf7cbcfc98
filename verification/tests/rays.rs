use raytracer::fixed::{DISTANCE_MAX, ONE, ORIGIN_MAX};
use raytracer::geometry::Vec3;
use raytracer::objects::{Material, Primitive, Sphere, Triangle};
use raytracer::rays::Ray;
use raytracer::scene::Scene;

fn plain() -> Material {
    Material {
        k_d: 700_000,
        k_s: 500_000,
        k_a: 100_000,
        k_gls: 4,
        o_d: Vec3::new(ONE, 500_000, 0),
        o_s: Vec3::new(ONE, ONE, ONE),
        refl: 0,
    }
}

fn scene(direction_to_light: Vec3, objects: Vec<Primitive>) -> Scene {
    Scene {
        direction_to_light,
        light_color: Vec3::new(ONE, ONE, ONE),
        ambient_light: Vec3::new(200_000, 200_000, 200_000),
        background_color: Vec3::new(200_000, 200_000, 200_000),
        objects,
    }
}

fn ball(z: i64, material: Material) -> Primitive {
    Primitive::Sphere(Sphere { center: Vec3::new(0, 0, z), radius: 500_000, material })
}

fn floor() -> Primitive {
    Primitive::Triangle(Triangle {
        vertices: [
            Vec3::new(-5 * ONE, -ONE, 5 * ONE),
            Vec3::new(5 * ONE, -ONE, 5 * ONE),
            Vec3::new(0, -ONE, -10 * ONE),
        ],
        material: plain(),
    })
}

fn up() -> Vec3 {
    Vec3::new(0, ONE, 0)
}

#[test]
fn new_ray_keeps_origin_and_normalises_direction() {
    let ray = Ray::new(Vec3::new(0, 0, 1_000_000), Vec3::new(0, 0, -3_000_000));
    assert_eq!(*ray.origin(), Vec3::new(0, 0, 1_000_000));
    assert_eq!(*ray.direction(), Vec3::new(0, 0, -1_000_000));
    let ray = Ray::new(Vec3::new(-7, 8, 9), Vec3::new(3, 0, 4));
    assert_eq!(*ray.origin(), Vec3::new(-7, 8, 9));
    assert_eq!(*ray.direction(), Vec3::new(600_000, 0, 800_000));
}

#[test]
fn direction_of_a_ray_has_unit_length() {
    let directions = [
        Vec3::new(1, 0, 0),
        Vec3::new(1, 1, 1),
        Vec3::new(-500_000, 499_999, -ONE),
        Vec3::new(300_000, -300_000, -2_000_000),
        Vec3::new(i64::MAX, 1, -1),
    ];
    for direction in directions {
        let ray = Ray::new(Vec3::zeros(), direction);
        let d = ray.direction();
        let len_sq = d.dot(d);
        assert!(1_000_000_000_000 - 4_000_000 <= len_sq && len_sq <= 1_000_000_000_000 + 1_000);
    }
}

#[test]
fn points_along_a_ray() {
    let ray = Ray::new(Vec3::new(ONE, 2 * ONE, 3 * ONE), Vec3::new(3, 0, -4));
    assert_eq!(ray.at(0), Vec3::new(ONE, 2 * ONE, 3 * ONE));
    assert_eq!(ray.at(ONE), Vec3::new(1_600_000, 2 * ONE, 2_200_000));
    assert_eq!(ray.at(2_500_000), Vec3::new(2_500_000, 2 * ONE, ONE));
    assert_eq!(ray.at(-ONE), Vec3::new(400_000, 2 * ONE, 3_800_000));
    assert_eq!(ray.at(1), Vec3::new(ONE, 2 * ONE, 3 * ONE));
    assert_eq!(ray.at(4_000 * ONE), Vec3::new(2_401_000_000, 2 * ONE, -3_197_000_000));
    assert_eq!(ray.at(DISTANCE_MAX), Vec3::new(96_001_000_000, 2 * ONE, -127_997_000_000));
}

#[test]
fn ray_in_an_empty_scene_meets_nothing() {
    let s = scene(up(), Vec::new());
    let ray = Ray::new(Vec3::zeros(), Vec3::new(0, 0, -1));
    assert!(ray.nearest_hit(&s).is_none());
    assert_eq!(ray.color(&s), Vec3::new(200_000, 200_000, 200_000));
}

#[test]
fn ray_that_misses_every_object_shows_the_background() {
    let s = scene(up(), vec![ball(-1_500_000, plain()), ball(-2_500_000, plain()), floor()]);
    for direction in [Vec3::new(0, 0, 1), Vec3::new(0, 1, 0), Vec3::new(ONE, 0, -ONE)] {
        let ray = Ray::new(Vec3::zeros(), direction);
        assert!(ray.nearest_hit(&s).is_none());
        assert_eq!(ray.color(&s), s.background_color);
    }
}

#[test]
fn nearer_of_two_spheres_is_met_whatever_their_order() {
    let near = ball(-1_500_000, plain());
    let far = ball(-2_500_000, Material { k_d: 1, ..plain() });
    let ray = Ray::new(Vec3::zeros(), Vec3::new(0, 0, -1));
    for objects in [vec![near, far], vec![far, near]] {
        let s = scene(Vec3::new(0, 0, ONE), objects);
        let (point, object, distance) = ray.nearest_hit(&s).unwrap();
        assert_eq!(distance, ONE);
        assert_eq!(point, Vec3::new(0, 0, -ONE));
        assert_eq!(*object, near);
        assert_eq!(ray.color(&s), Vec3::new(1_220_000, 860_000, 500_000));
    }
}

#[test]
fn first_of_two_objects_at_one_distance_is_met() {
    let one = ball(-1_500_000, plain());
    let other = ball(-1_500_000, Material { k_a: ONE, ..plain() });
    let ray = Ray::new(Vec3::zeros(), Vec3::new(0, 0, -1));
    let s = scene(Vec3::new(0, 0, ONE), vec![one, other]);
    let (point, object, distance) = ray.nearest_hit(&s).unwrap();
    assert_eq!((point, *object, distance), (Vec3::new(0, 0, -ONE), one, ONE));
    assert_eq!(ray.color(&s), Vec3::new(1_220_000, 860_000, 500_000));
    let s = scene(Vec3::new(0, 0, ONE), vec![other, one]);
    let (point, object, distance) = ray.nearest_hit(&s).unwrap();
    assert_eq!((point, *object, distance), (Vec3::new(0, 0, -ONE), other, ONE));
    assert_eq!(ray.color(&s), Vec3::new(1_400_000, 950_000, 500_000));
}

#[test]
fn nearest_is_found_among_many_in_any_order() {
    let a = ball(-3_500_000, plain());
    let b = ball(-1_500_000, Material { k_d: 2, ..plain() });
    let c = ball(-5_500_000, Material { k_d: 3, ..plain() });
    let d = ball(2_500_000, Material { k_d: 4, ..plain() });
    let f = floor();
    let orders = [
        vec![a, b, c, d, f],
        vec![f, d, c, b, a],
        vec![c, a, f, b, d],
        vec![b, f, a, d, c],
        vec![d, c, b, a, f],
    ];
    let ray = Ray::new(Vec3::zeros(), Vec3::new(0, 0, -1));
    let down = Ray::new(Vec3::zeros(), Vec3::new(0, -ONE, -ONE));
    for objects in orders {
        let s = scene(up(), objects);
        let (point, object, distance) = ray.nearest_hit(&s).unwrap();
        assert_eq!((point, *object, distance), (Vec3::new(0, 0, -ONE), b, ONE));
        let (point, object, distance) = down.nearest_hit(&s).unwrap();
        assert_eq!((point, *object, distance), (Vec3::new(0, -999_999, -999_999), f, 1_414_215));
    }
}

#[test]
fn ray_meets_a_sphere_from_its_centre_at_the_radius() {
    let s = scene(up(), vec![ball(0, plain())]);
    for direction in [Vec3::new(1, 2, 3), Vec3::new(0, -1, 0), Vec3::new(-3, 0, 4)] {
        let ray = Ray::new(Vec3::zeros(), direction);
        let (point, _, distance) = ray.nearest_hit(&s).unwrap();
        assert_eq!(distance, 500_000);
        assert_eq!(point, ray.at(500_000));
    }
}

#[test]
fn object_across_the_whole_scene_is_within_reach() {
    let far = 1_000 * ONE;
    let wall = Primitive::Triangle(Triangle {
        vertices: [Vec3::new(-far, -far, -far), Vec3::new(far, -far, far), Vec3::new(-far, far, far)],
        material: plain(),
    });
    let s = scene(up(), vec![wall]);
    let ray = Ray::new(Vec3::new(far, far, -far), Vec3::new(-1, -1, 1));
    let (point, _, distance) = ray.nearest_hit(&s).unwrap();
    assert_eq!(distance, 2_309_402_153);
    assert_eq!(point, Vec3::new(-333_333_333, -333_333_333, 333_333_333));
    assert!(distance < DISTANCE_MAX);
}

#[test]
fn object_far_away_is_met_all_the_same() {
    let at = |x: i64, y: i64, z: i64| {
        Primitive::Sphere(Sphere { center: Vec3::new(x, y, z), radius: ONE, material: plain() })
    };
    // six thousand away
    let ray = Ray::new(Vec3::new(0, 0, 5_000 * ONE), Vec3::new(0, 0, -1));
    let s = scene(up(), vec![at(0, 0, -1_000 * ONE)]);
    let (point, _, distance) = ray.nearest_hit(&s).unwrap();
    assert_eq!((point, distance), (Vec3::new(0, 0, -999 * ONE), 5_999 * ONE));
    // from the farthest origin a ray can have to the far edge of the scene
    let ray = Ray::new(Vec3::new(ORIGIN_MAX, 0, 0), Vec3::new(-1, 0, 0));
    let s = scene(up(), vec![at(-1_000 * ONE, 0, 0)]);
    let (point, _, distance) = ray.nearest_hit(&s).unwrap();
    assert_eq!((point, distance), (Vec3::new(-999 * ONE, 0, 0), 14_999_000_100));
    assert!(distance < DISTANCE_MAX);
}

#[test]
fn triangle_far_away_is_met_all_the_same() {
    let far = 1_000 * ONE;
    let wall = Primitive::Triangle(Triangle {
        vertices: [Vec3::new(-far, -far, -far), Vec3::new(far, -far, -far), Vec3::new(0, far, -far)],
        material: plain(),
    });
    let s = scene(up(), vec![wall]);
    let ray = Ray::new(Vec3::new(0, 0, 13_000 * ONE), Vec3::new(0, 0, -1));
    let (point, _, distance) = ray.nearest_hit(&s).unwrap();
    assert_eq!((point, distance), (Vec3::new(0, 0, -far), 14_000 * ONE));
    let ray = Ray::new(Vec3::new(100 * ONE, 200 * ONE, 14_000 * ONE), Vec3::new(-1, -2, -150));
    assert_eq!(*ray.direction(), Vec3::new(-6_665, -13_331, -999_888));
    let (point, _, distance) = ray.nearest_hit(&s).unwrap();
    assert_eq!((point, distance), (Vec3::new(13_802, 12_602, -999_999_999), 15_001_680_188));
}

#[test]
fn object_far_away_casts_its_shadow_all_the_same() {
    let ball = Primitive::Sphere(Sphere {
        center: Vec3::new(0, 0, -3 * ONE),
        radius: ONE,
        material: plain(),
    });
    let toward_ball = Vec3::new(0, 0, -ONE);
    let s = scene(toward_ball, vec![ball]);
    // the shadow ray from this point meets the ball 4502 away
    let point = Vec3::new(0, 0, 4_500 * ONE);
    assert_eq!(ball.color(point, toward_ball, &s), Vec3::zeros());
    // without the ball in the way the point keeps its ambient light
    let none = scene(toward_ball, Vec::new());
    assert_eq!(ball.color(point, toward_ball, &none), Vec3::new(20_000, 10_000, 0));
}

#[test]
fn distant_sphere_can_shadow_its_own_lit_side() {
    let ball = |z: i64| {
        Primitive::Sphere(Sphere { center: Vec3::new(0, 0, z), radius: ONE, material: plain() })
    };
    let ray = Ray::new(Vec3::new(0, 0, ONE), Vec3::new(0, 70_000, -ONE));
    let light = Vec3::new(0, ONE, ONE);
    // three units away the point found is seven units of resolution inside the
    // sphere, and the offset of the shadow ray lifts it out
    let near = scene(light, vec![ball(-3 * ONE)]);
    let (p, _, t) = ray.nearest_hit(&near).unwrap();
    assert_eq!((t, p), (3_030_048, Vec3::new(0, 211_585, -2_022_648)));
    assert_eq!(ray.color(&near), Vec3::new(1_030_505, 726_256, 422_008));
    // ten units away it is a hundred and three inside, which the offset does
    // not make up for: the shadow ray starts inside the sphere and meets it
    let far = scene(light, vec![ball(-10 * ONE)]);
    let (p, _, t) = ray.nearest_hit(&far).unwrap();
    assert_eq!((t, p), (10_333_014, Vec3::new(0, 721_544, -9_307_780)));
    assert_eq!(ray.color(&far), Vec3::zeros());
}

#[test]
fn point_in_the_shadow_of_another_object_is_black() {
    let lit = scene(up(), vec![floor()]);
    let shaded = scene(up(), vec![floor(), ball(-2 * ONE, plain())]);
    let shaded_other_order = scene(up(), vec![ball(-2 * ONE, plain()), floor()]);
    let black = Vec3::zeros();
    // under the ball
    let ray = Ray::new(Vec3::zeros(), Vec3::new(0, -ONE, -2 * ONE));
    assert_eq!(ray.color(&lit), Vec3::new(739_999, 379_999, 19_999));
    assert_eq!(ray.color(&shaded), black);
    assert_eq!(ray.color(&shaded_other_order), black);
    let ray = Ray::new(Vec3::zeros(), Vec3::new(300_000, -ONE, -2 * ONE));
    assert_eq!(ray.color(&lit), Vec3::new(739_298, 379_298, 19_298));
    assert_eq!(ray.color(&shaded), black);
    // beside the ball
    for (direction, color) in [
        (Vec3::new(0, -ONE, -ONE), Vec3::new(844_999, 484_999, 124_999)),
        (Vec3::new(2 * ONE, -ONE, -2 * ONE), Vec3::new(726_172, 366_172, 6_172)),
        (Vec3::new(0, -ONE, -3 * ONE), Vec3::new(724_999, 364_999, 4_999)),
        (Vec3::new(600_000, -ONE, -2 * ONE), Vec3::new(737_403, 377_403, 17_403)),
    ] {
        let ray = Ray::new(Vec3::zeros(), direction);
        assert_eq!(ray.color(&lit), color);
        assert_eq!(ray.color(&shaded), color);
        assert_eq!(ray.color(&shaded_other_order), color);
    }
}

#[test]
fn more_objects_never_brighten_a_point() {
    let few = scene(up(), vec![floor()]);
    let many = scene(
        up(),
        vec![floor(), ball(-2 * ONE, plain()), ball(-4 * ONE, plain()), ball(3 * ONE, plain())],
    );
    let target = floor();
    for x in [-900_000, -300_000, 0, 300_000, 900_000] {
        for z in [-5 * ONE, -4 * ONE, -3 * ONE, -2 * ONE, -ONE, ONE, 3 * ONE] {
            let point = Vec3::new(x, -ONE, z);
            let view = Vec3::new(0, -ONE, 0);
            let before = target.color(point, view, &few);
            let after = target.color(point, view, &many);
            assert!(after == before || after == Vec3::zeros());
            assert!(after.x <= before.x && after.y <= before.y && after.z <= before.z);
        }
    }
}

#[test]
fn surface_that_faces_away_from_the_light_shades_itself() {
    let toward_light = floor();
    let away = match floor() {
        Primitive::Triangle(t) => Primitive::Triangle(Triangle {
            vertices: [t.vertices[0], t.vertices[2], t.vertices[1]],
            material: t.material,
        }),
        other => other,
    };
    let ray = Ray::new(Vec3::zeros(), Vec3::new(0, -ONE, -ONE));
    assert_eq!(ray.color(&scene(up(), vec![toward_light])), Vec3::new(844_999, 484_999, 124_999));
    assert_eq!(ray.color(&scene(up(), vec![away])), Vec3::zeros());
}

#[test]
fn ray_from_inside_a_sphere_sees_its_lit_outside() {
    let big = Primitive::Sphere(Sphere { center: Vec3::zeros(), radius: 2 * ONE, material: plain() });
    let s = scene(up(), vec![big]);
    let ray = Ray::new(Vec3::zeros(), Vec3::new(0, ONE, 0));
    let (point, _, distance) = ray.nearest_hit(&s).unwrap();
    assert_eq!((point, distance), (Vec3::new(0, 2 * ONE, 0), 2 * ONE));
    assert_eq!(ray.color(&s), Vec3::new(720_000, 360_000, 0));
    let ray = Ray::new(Vec3::new(500_000, 0, 0), Vec3::new(ONE, 0, 0));
    assert_eq!(ray.nearest_hit(&s).unwrap().2, 1_500_000);
    assert_eq!(ray.color(&s), Vec3::new(20_000, 10_000, 0));
}

#[test]
fn sphere_lit_from_the_side_of_the_eye() {
    let s = scene(Vec3::new(0, ONE, ONE), vec![ball(-2 * ONE, plain())]);
    let cases = [
        (Vec3::new(0, 0, -1), 1_500_000, Vec3::new(0, 0, -1_500_000), Vec3::new(639_973, 382_486, 124_999)),
        (
            Vec3::new(0, 100_000, -ONE),
            1_531_386,
            Vec3::new(0, 152_377, -1_523_785),
            Vec3::new(1_137_870, 816_733, 495_597),
        ),
        (
            Vec3::new(200_000, 100_000, -ONE),
            1_707_826,
            Vec3::new(333_333, 166_666, -1_666_667),
            Vec3::new(514_983, 257_497, 11),
        ),
    ];
    for (direction, distance, point, color) in cases {
        let ray = Ray::new(Vec3::zeros(), direction);
        let hit = ray.nearest_hit(&s).unwrap();
        assert_eq!((hit.0, hit.2), (point, distance));
        assert_eq!(ray.color(&s), color);
    }
}

#[test]
fn sphere_of_radius_two_fifths_under_a_light_from_above() {
    let material = Material {
        k_d: 700_000,
        k_s: 0,
        k_a: 0,
        k_gls: 1,
        o_d: Vec3::new(ONE, ONE, ONE),
        o_s: Vec3::new(ONE, ONE, ONE),
        refl: 0,
    };
    let sphere = Primitive::Sphere(Sphere { center: Vec3::zeros(), radius: 400_000, material });
    let s = Scene {
        direction_to_light: up(),
        light_color: Vec3::new(ONE, ONE, ONE),
        ambient_light: Vec3::zeros(),
        background_color: Vec3::new(200_000, 200_000, 200_000),
        objects: vec![sphere],
    };
    let eye = Vec3::new(0, 0, ONE);
    let ray = Ray::new(eye, Vec3::new(0, 0, -ONE));
    let (point, object, distance) = ray.nearest_hit(&s).unwrap();
    assert_eq!(distance, 600_000);
    assert_eq!(point, Vec3::new(0, 0, 400_000));
    assert_eq!(*object, sphere);
    // the light grazes the point that faces the eye
    assert_eq!(ray.color(&s), Vec3::zeros());
    // higher up the sphere is lit, lower down it is dark, and beside it lies the background
    assert_eq!(Ray::new(eye, Vec3::new(0, 200_000, -ONE)).color(&s), Vec3::new(216_889, 216_889, 216_889));
    assert_eq!(Ray::new(eye, Vec3::new(0, 390_000, -ONE)).color(&s), Vec3::new(486_036, 486_036, 486_036));
    assert_eq!(
        Ray::new(eye, Vec3::new(100_000, 300_000, -ONE)).color(&s),
        Vec3::new(345_696, 345_696, 345_696)
    );
    assert_eq!(Ray::new(eye, Vec3::new(0, -200_000, -ONE)).color(&s), Vec3::zeros());
    assert_eq!(Ray::new(eye, Vec3::new(0, 500_000, -ONE)).color(&s), Vec3::new(200_000, 200_000, 200_000));
}
