use raytracer::fixed::ONE;
use raytracer::geometry::Vec3;
use raytracer::image::{pixel_ray, quantize, render, to_pixel, Pixel};
use raytracer::objects::{Material, Primitive, Sphere};
use raytracer::scene::{get_scene_1, get_scene_2, get_scene_3, Scene};

fn px(r: u8, g: u8, b: u8) -> Pixel {
    Pixel { r, g, b }
}

fn empty(background_color: Vec3) -> Scene {
    Scene {
        direction_to_light: Vec3::new(0, ONE, 0),
        light_color: Vec3::new(ONE, ONE, ONE),
        ambient_light: Vec3::new(ONE, ONE, ONE),
        background_color,
        objects: Vec::new(),
    }
}

#[test]
fn channel_is_scaled_to_a_byte_and_rounded_down() {
    assert_eq!(quantize(0), 0);
    assert_eq!(quantize(1), 0);
    assert_eq!(quantize(3_921), 0);
    assert_eq!(quantize(3_922), 1);
    assert_eq!(quantize(200_000), 51);
    assert_eq!(quantize(500_000), 127);
    assert_eq!(quantize(999_999), 254);
    assert_eq!(quantize(1_000_000), 255);
}

#[test]
fn channel_outside_the_range_is_limited() {
    assert_eq!(quantize(1_003_922), 255);
    assert_eq!(quantize(5_000_000_000_000_000), 255);
    assert_eq!(quantize(i64::MAX), 255);
    assert_eq!(quantize(-1), 0);
    assert_eq!(quantize(-3_922), 0);
    assert_eq!(quantize(i64::MIN), 0);
}

#[test]
fn pixel_of_a_colour() {
    assert_eq!(to_pixel(&Vec3::new(200_000, 500_000, 1_000_000)), px(51, 127, 255));
    assert_eq!(to_pixel(&Vec3::new(-5, 2 * ONE, 3_922)), px(0, 255, 1));
}

#[test]
fn rays_through_the_corners_and_the_middle_of_the_window() {
    let eye = Vec3::new(0, 0, ONE);
    let lower_left = pixel_ray(0, 0, 500, 500);
    assert_eq!(*lower_left.origin(), eye);
    assert_eq!(*lower_left.direction(), Vec3::new(-408_248, -408_248, -816_496));
    let upper_right = pixel_ray(499, 499, 500, 500);
    assert_eq!(*upper_right.origin(), eye);
    assert_eq!(*upper_right.direction(), Vec3::new(408_248, 408_248, -816_496));
    assert_eq!(*pixel_ray(250, 100, 500, 500).direction(), Vec3::new(959, -286_996, -957_931));
    assert_eq!(*pixel_ray(3, 2, 8, 6).direction(), Vec3::new(-70_895, -99_253, -992_533));
}

#[test]
fn smallest_picture_has_its_rays_through_the_corners() {
    assert_eq!(*pixel_ray(0, 0, 2, 2).direction(), Vec3::new(-408_248, -408_248, -816_496));
    assert_eq!(*pixel_ray(1, 0, 2, 2).direction(), Vec3::new(408_248, -408_248, -816_496));
    assert_eq!(*pixel_ray(0, 1, 2, 2).direction(), Vec3::new(-408_248, 408_248, -816_496));
    assert_eq!(*pixel_ray(1, 1, 2, 2).direction(), Vec3::new(408_248, 408_248, -816_496));
}

#[test]
fn picture_of_an_empty_scene_is_all_background() {
    for (background, pixel) in [
        (Vec3::new(200_000, 200_000, 200_000), px(51, 51, 51)),
        (Vec3::new(0, 500_000, 2 * ONE), px(0, 127, 255)),
        (Vec3::new(-ONE, 3_922, 999_999), px(0, 1, 254)),
    ] {
        let pixels = render(&empty(background), 7, 5);
        assert_eq!(pixels.len(), 35);
        assert!(pixels.iter().all(|p| *p == pixel));
    }
}

#[test]
fn picture_is_stored_from_the_top_row_down() {
    let material = Material {
        k_d: ONE,
        k_s: 0,
        k_a: ONE,
        k_gls: 1,
        o_d: Vec3::new(ONE, ONE, ONE),
        o_s: Vec3::zeros(),
        refl: 0,
    };
    // a ball on one point of the grid of four by three rays, lit from the eye
    let lit_by = |x: i64, y: i64| {
        let ball = Sphere { center: Vec3::new(x, y, 0), radius: 200_000, material };
        let mut scene = empty(Vec3::zeros());
        scene.direction_to_light = Vec3::new(0, 0, ONE);
        scene.objects.push(Primitive::Sphere(ball));
        let pixels = render(&scene, 4, 3);
        assert_eq!(pixels.len(), 12);
        (0..12).filter(|k| pixels[*k] != px(0, 0, 0)).collect::<Vec<usize>>()
    };
    assert_eq!(lit_by(-500_000, 500_000), vec![0]);
    assert_eq!(lit_by(500_000, -500_000), vec![11]);
    assert_eq!(lit_by(166_667, 0), vec![6]);
    assert_eq!(lit_by(-166_667, -500_000), vec![9]);
}

#[test]
fn small_picture_of_scene_1() {
    let pixels = render(&get_scene_1(), 8, 6);
    let expected = [
        px(51, 51, 51), px(51, 51, 51), px(51, 51, 51), px(51, 51, 51), px(51, 51, 51), px(51, 51, 51), px(51, 51, 51), px(51, 51, 51),
        px(51, 51, 51), px(51, 51, 51), px(51, 51, 51), px(51, 51, 51), px(51, 51, 51), px(51, 51, 51), px(51, 51, 51), px(51, 51, 51),
        px(51, 51, 51), px(51, 51, 51), px(51, 51, 51), px(0, 0, 0), px(0, 0, 0), px(51, 51, 51), px(51, 51, 51), px(51, 51, 51),
        px(51, 51, 51), px(51, 51, 51), px(154, 154, 0), px(51, 51, 51), px(51, 51, 51), px(0, 0, 154), px(51, 51, 51), px(51, 51, 51),
        px(51, 51, 51), px(51, 51, 51), px(51, 51, 51), px(0, 0, 0), px(0, 0, 0), px(51, 51, 51), px(51, 51, 51), px(51, 51, 51),
        px(51, 51, 51), px(51, 51, 51), px(51, 51, 51), px(51, 51, 51), px(51, 51, 51), px(51, 51, 51), px(51, 51, 51), px(51, 51, 51),
    ];
    assert_eq!(pixels, expected.to_vec());
}

#[test]
fn small_picture_of_scene_2() {
    let pixels = render(&get_scene_2(), 8, 6);
    let expected = [
        px(51, 51, 51), px(51, 51, 51), px(51, 51, 51), px(51, 51, 51), px(51, 51, 51), px(51, 51, 51), px(51, 51, 51), px(51, 51, 51),
        px(51, 51, 51), px(51, 51, 51), px(51, 51, 51), px(51, 51, 51), px(51, 51, 51), px(51, 51, 51), px(51, 51, 51), px(51, 51, 51),
        px(0, 123, 0), px(0, 0, 0), px(232, 232, 0), px(180, 180, 255), px(180, 180, 255), px(51, 51, 51), px(51, 51, 51), px(51, 51, 51),
        px(0, 123, 0), px(0, 0, 0), px(96, 96, 255), px(180, 180, 255), px(180, 180, 255), px(51, 51, 51), px(51, 51, 51), px(51, 51, 51),
        px(51, 51, 51), px(51, 51, 51), px(29, 29, 194), px(51, 51, 51), px(51, 51, 51), px(51, 51, 51), px(51, 51, 51), px(51, 51, 51),
        px(51, 51, 51), px(51, 51, 51), px(51, 51, 51), px(0, 0, 0), px(0, 0, 0), px(1, 1, 1), px(4, 4, 4), px(51, 51, 51),
    ];
    assert_eq!(pixels, expected.to_vec());
}

#[test]
fn small_picture_of_scene_3() {
    let pixels = render(&get_scene_3(), 8, 6);
    let expected = [
        px(0, 0, 0), px(0, 0, 0), px(0, 0, 0), px(0, 0, 0), px(0, 0, 0), px(0, 0, 0), px(0, 0, 0), px(0, 0, 0),
        px(51, 51, 51), px(51, 51, 51), px(0, 0, 0), px(0, 0, 0), px(0, 0, 0), px(0, 0, 0), px(51, 51, 51), px(51, 51, 51),
        px(0, 0, 0), px(0, 0, 0), px(51, 51, 51), px(51, 51, 51), px(51, 51, 51), px(51, 51, 51), px(51, 51, 51), px(51, 51, 51),
        px(0, 0, 0), px(0, 0, 0), px(51, 51, 51), px(51, 51, 51), px(51, 51, 51), px(51, 51, 51), px(51, 51, 51), px(51, 51, 51),
        px(51, 51, 51), px(51, 51, 51), px(0, 0, 0), px(0, 0, 0), px(0, 0, 0), px(0, 0, 0), px(51, 51, 51), px(51, 51, 51),
        px(0, 0, 0), px(0, 0, 0), px(0, 0, 0), px(0, 0, 0), px(0, 0, 0), px(0, 0, 0), px(0, 0, 0), px(0, 0, 0),
    ];
    assert_eq!(pixels, expected.to_vec());
}
