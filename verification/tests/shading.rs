use raytracer::fixed::ONE;
use raytracer::geometry::Vec3;
use raytracer::material::COLOR_MAX;
use raytracer::objects::Material;
use raytracer::scene::Scene;

fn plain() -> Material {
    Material {
        k_d: 700_000,
        k_s: 500_000,
        k_a: 100_000,
        k_gls: 4,
        o_d: Vec3::new(ONE, 500_000, 0),
        o_s: Vec3::new(ONE, ONE, ONE),
        refl: 0,
    }
}

fn lights(direction_to_light: Vec3) -> Scene {
    Scene {
        direction_to_light,
        light_color: Vec3::new(ONE, ONE, ONE),
        ambient_light: Vec3::new(200_000, 200_000, 200_000),
        background_color: Vec3::zeros(),
        objects: Vec::new(),
    }
}

#[test]
fn light_along_the_normal_seen_along_the_normal() {
    // ambient (0.02, 0.01, 0) + diffuse (0.7, 0.35, 0) + specular (0.5, 0.5, 0.5)
    let c = plain().color(&Vec3::new(0, ONE, 0), Vec3::new(0, -ONE, 0), &lights(Vec3::new(0, ONE, 0)));
    assert_eq!(c, Vec3::new(1_220_000, 860_000, 500_000));
}

#[test]
fn surface_that_faces_away_keeps_the_ambient_term_only() {
    let c = plain().color(&Vec3::new(0, ONE, 0), Vec3::new(0, -ONE, 0), &lights(Vec3::new(0, -ONE, 0)));
    assert_eq!(c, Vec3::new(20_000, 10_000, 0));
    // a light that grazes the surface gives neither diffuse nor specular light
    let c = plain().color(&Vec3::new(0, 0, ONE), Vec3::new(0, 0, -ONE), &lights(Vec3::new(ONE, 0, 0)));
    assert_eq!(c, Vec3::new(20_000, 10_000, 0));
}

#[test]
fn highlight_vanishes_away_from_the_mirrored_light() {
    // the eye looks along the mirrored light: no cosine, no highlight
    let c = plain().color(
        &Vec3::new(0, ONE, 0),
        Vec3::new(707_106, -707_106, 0),
        &lights(Vec3::new(-ONE, ONE, 0)),
    );
    assert_eq!(c, Vec3::new(514_974, 257_487, 0));
}

#[test]
fn highlight_is_full_where_the_eye_meets_the_mirrored_light() {
    let c = plain().color(
        &Vec3::new(0, 0, ONE),
        Vec3::new(600_000, 0, -800_000),
        &lights(Vec3::new(3, 0, 4)),
    );
    assert_eq!(c, Vec3::new(1_080_000, 790_000, 500_000));
}

#[test]
fn light_from_a_slanted_direction() {
    let c = plain().color(&Vec3::new(0, 0, ONE), Vec3::new(0, 0, -ONE), &lights(Vec3::new(ONE, ONE, ONE)));
    // ambient (0.02, 0.01, 0), diffuse 0.57735 * (0.7, 0.35, 0), highlight 0.5 * 0.57735^4
    assert_eq!(c, Vec3::new(479_700, 267_627, 55_555));
    let c = plain().color(&Vec3::new(0, 0, ONE), Vec3::new(0, 0, -ONE), &lights(Vec3::new(0, 1, 10)));
    assert_eq!(c, Vec3::new(1_206_672, 848_409, 490_147));
}

#[test]
fn length_of_the_direction_to_the_light_does_not_matter() {
    let normal = Vec3::new(0, 0, ONE);
    let view = Vec3::new(0, 0, -ONE);
    let expected = plain().color(&normal, view, &lights(Vec3::new(0, 1, 10)));
    for k in [7, 1_000, ONE, 90 * ONE] {
        assert_eq!(plain().color(&normal, view, &lights(Vec3::new(0, k, 10 * k))), expected);
    }
}

#[test]
fn exponent_zero_gives_the_whole_highlight() {
    let material = Material { k_gls: 0, ..plain() };
    let mut scene = lights(Vec3::new(ONE, ONE, ONE));
    scene.ambient_light = Vec3::zeros();
    let c = material.color(&Vec3::new(0, 0, ONE), Vec3::new(0, 0, -ONE), &scene);
    assert_eq!(c, Vec3::new(904_145, 702_072, 500_000));
}

#[test]
fn colours_are_not_limited_to_one() {
    let material = Material { k_d: 2 * ONE, k_s: 3 * ONE, k_a: ONE, ..plain() };
    let mut scene = lights(Vec3::new(0, ONE, 0));
    scene.light_color = Vec3::new(2 * ONE, ONE, 500_000);
    scene.ambient_light = Vec3::new(ONE, ONE, ONE);
    let c = material.color(&Vec3::new(0, ONE, 0), Vec3::new(0, -ONE, 0), &scene);
    assert_eq!(c, Vec3::new(11_000_000, 4_500_000, 1_500_000));
}

#[test]
fn weights_below_zero_are_taken_as_they_are() {
    let material = Material { k_d: -700_000, ..plain() };
    let c = material.color(&Vec3::new(0, ONE, 0), Vec3::new(0, -ONE, 0), &lights(Vec3::new(0, ONE, 0)));
    assert_eq!(c, Vec3::new(-180_000, 160_000, 500_000));
}

#[test]
fn reflectivity_does_not_change_the_colour() {
    let normal = Vec3::new(0, 0, ONE);
    let view = Vec3::new(0, 0, -ONE);
    let scene = lights(Vec3::new(ONE, ONE, ONE));
    let expected = plain().color(&normal, view, &scene);
    for refl in [-ONE, 1, 900_000, ONE, 1_000 * ONE] {
        assert_eq!(Material { refl, ..plain() }.color(&normal, view, &scene), expected);
    }
}

#[test]
fn brightest_colour_that_a_scene_can_give() {
    let most = 1_000 * ONE;
    let all = Vec3::new(most, most, most);
    let material = Material { k_d: most, k_s: most, k_a: most, k_gls: 1, o_d: all, o_s: all, refl: 0 };
    let scene = Scene {
        direction_to_light: Vec3::new(0, ONE, 0),
        light_color: all,
        ambient_light: all,
        background_color: Vec3::zeros(),
        objects: Vec::new(),
    };
    let c = material.color(&Vec3::new(0, ONE, 0), Vec3::new(0, -ONE, 0), &scene);
    assert_eq!(c, Vec3::new(3_000_000_000_000_000, 3_000_000_000_000_000, 3_000_000_000_000_000));
    assert!(c.x <= COLOR_MAX);
}
