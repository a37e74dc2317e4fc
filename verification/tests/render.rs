use raytracer::camera::{calc_image_height, Camera, Viewport};
use raytracer::color::Color;
use raytracer::ray::Ray;
use raytracer::vectors::Vec3;

fn gradient_ray(dir: Vec3) -> Ray {
    Ray {
        orig: Vec3::zero(),
        dir,
    }
}

#[test]
fn test_shading_down_is_white() {
    // Unit direction y = -1: the blend weight is 0, the color pure white.
    let c = raytracer::camera::ray_color(gradient_ray(Vec3 { x: 0, y: -5, z: 0 }));
    assert_eq!((c.r, c.g, c.b), (255, 255, 255));
}

#[test]
fn test_shading_up_is_blue() {
    // Unit direction y = 1: the blend weight is 1, the color pure blue
    // (0.5, 0.7, 1.0), encoded as the floors of (127.5, 178.5, 255).
    let c = raytracer::camera::ray_color(gradient_ray(Vec3 { x: 0, y: 5, z: 0 }));
    assert_eq!((c.r, c.g, c.b), (127, 178, 255));
}

#[test]
fn test_shading_level_is_mid() {
    // Unit direction y = 0: the average of white and blue,
    // (0.75, 0.85, 1.0), encoded as the floors of (191.25, 216.75, 255).
    let c = raytracer::camera::ray_color(gradient_ray(Vec3 { x: 3, y: 0, z: 4 }));
    assert_eq!((c.r, c.g, c.b), (191, 216, 255));
}

#[test]
fn test_shading_between() {
    // Direction (0, 1, -1): unit y = 1/sqrt(2), between level and straight
    // up.  Red: floor((765 - 255/sqrt(2)) / 4) = floor(146.16..) = 146;
    // green: floor((4335 - 765/sqrt(2)) / 20) = floor(189.70..) = 189.
    let c = raytracer::camera::ray_color(gradient_ray(Vec3 { x: 0, y: 1, z: -1 }));
    assert_eq!((c.r, c.g, c.b), (146, 189, 255));
}

#[test]
fn test_color_write() {
    let mut out: Vec<u8> = Vec::new();
    let c = Color {
        r: 191,
        g: 216,
        b: 255,
    };
    c.write(&mut out);
    assert_eq!(out, b"191 216 255\n".to_vec());
}

#[test]
fn test_color_write_single_digits() {
    let mut out: Vec<u8> = Vec::new();
    let c = Color { r: 0, g: 7, b: 10 };
    c.write(&mut out);
    assert_eq!(out, b"0 7 10\n".to_vec());
}

#[test]
fn test_calc_image_height() {
    // The ideal aspect ratio 16:9 at width 400 gives 225 rows.
    assert_eq!(calc_image_height(16, 9, 400), 225);
    // The height is rounded toward zero.
    assert_eq!(calc_image_height(3, 2, 100), 66);
}

#[test]
fn test_calc_image_height_clamps_to_one_row() {
    // An extreme aspect ratio still yields at least one row.
    assert_eq!(calc_image_height(1000, 1, 3), 1);
}

#[test]
fn test_camera_dimensions() {
    let cam = Camera::new(16, 9, 400);
    assert_eq!(cam.image.width, 400);
    assert_eq!(cam.image.height, 225);
    assert!(cam.is_well_formed());
}

#[test]
fn test_pixel_center_of_first_pixel() {
    let v = Viewport {
        center: Vec3 { x: -1, y: 1, z: -2 },
        delta_horizontal: Vec3 { x: 2, y: 0, z: 0 },
        delta_vertical: Vec3 { x: 0, y: -2, z: 0 },
    };
    assert_eq!(v.pixel_center(0, 0), v.center);
}

#[test]
fn test_pixel_center_horizontal_step() {
    let v = Viewport {
        center: Vec3 { x: -3, y: 3, z: -4 },
        delta_horizontal: Vec3 { x: 2, y: 0, z: 0 },
        delta_vertical: Vec3 { x: 0, y: -2, z: 0 },
    };
    let step = v.pixel_center(1, 2).sub(v.pixel_center(1, 1));
    assert_eq!(step, v.delta_horizontal);
}

#[test]
fn test_render_two_by_two() {
    // A square aspect ratio at width 2 gives a 2x2 image: a three-line
    // header, then four pixel lines in row-major order.  The bottom rows
    // are closer to white (brighter) than the top rows, which lean blue.
    let cam = Camera::new(1, 1, 2);
    let out = cam.render();
    let expected = b"P3\n2 2\n255\n165 201 255\n165 201 255\n217 232 255\n217 232 255\n";
    assert_eq!(out, expected.to_vec());
}

#[test]
fn test_render_shape() {
    let cam = Camera::new(2, 1, 4);
    assert_eq!(cam.image.height, 2);
    let out = cam.render();
    let text = String::from_utf8(out).unwrap();
    let lines: Vec<&str> = text.lines().collect();
    assert_eq!(lines.len(), 3 + 4 * 2);
    assert_eq!(lines[0], "P3");
    assert_eq!(lines[1], "4 2");
    assert_eq!(lines[2], "255");
    for line in &lines[3..] {
        let channels: Vec<u32> = line
            .split(' ')
            .map(|c| c.parse::<u32>().unwrap())
            .collect();
        assert_eq!(channels.len(), 3);
        for c in channels {
            assert!(c <= 255);
        }
    }
}

#[test]
fn test_render_idempotent() {
    // Rendering is a pure function of the camera: two runs with the same
    // inputs produce byte-identical output.
    let first = Camera::new(16, 9, 40).render();
    let second = Camera::new(16, 9, 40).render();
    assert_eq!(first, second);
}

#[test]
fn test_add_commutative_values() {
    let a = Vec3 { x: 4, y: -7, z: 9 };
    let b = Vec3 { x: -2, y: 3, z: 11 };
    assert_eq!(a.add(b), b.add(a));
}

#[test]
fn test_sub_negate_values() {
    let a = Vec3 { x: 4, y: -7, z: 9 };
    let b = Vec3 { x: -2, y: 3, z: 11 };
    assert_eq!(a.sub(b), b.sub(a).neg());
}

#[test]
fn test_cross_anticommutative_values() {
    let a = Vec3 { x: 1, y: 2, z: 3 };
    let b = Vec3 { x: -4, y: 0, z: 5 };
    assert_eq!(Vec3::cross(&a, &b), Vec3::cross(&b, &a).neg());
    assert_eq!(Vec3::cross(&a, &a), Vec3::zero());
}

#[test]
fn test_dot_scale_linear_values() {
    let a = Vec3 { x: 1, y: 2, z: 3 };
    let b = Vec3 { x: -4, y: 0, z: 5 };
    assert_eq!(a.mul(3).dot(&b), 3 * a.dot(&b));
}

#[test]
fn test_ray_at_affine_values() {
    let r = Ray {
        orig: Vec3 { x: 5, y: -1, z: 0 },
        dir: Vec3 { x: 2, y: 3, z: -4 },
    };
    assert_eq!(r.at(0), r.orig);
    assert_eq!(r.at(1), r.orig.add(r.dir));
    assert_eq!(r.at(2 + 3).sub(r.at(2)), r.dir.mul(3));
}

#[test]
fn test_div_truncates_toward_zero() {
    let a = Vec3 { x: -7, y: 7, z: -6 };
    assert_eq!(a.div(2), Vec3 { x: -3, y: 3, z: -3 });
    assert_eq!(a.div(-2), Vec3 { x: 3, y: -3, z: 3 });
}

#[test]
fn test_magnitude_values() {
    assert_eq!(Vec3::zero().magnitude(), 0);
    assert_eq!(Vec3 { x: 3, y: 4, z: 0 }.magnitude(), 5);
    // The magnitude is rounded down: |(2, 2, 2)| = sqrt(12) = 3.46..
    assert_eq!(Vec3 { x: 2, y: 2, z: 2 }.magnitude(), 3);
}

#[test]
fn test_unit_values() {
    assert_eq!(
        Vec3 { x: 10, y: 0, z: 0 }.unit(),
        Vec3 { x: 1, y: 0, z: 0 }
    );
    // Truncating division can collapse short vectors entirely.
    assert_eq!(Vec3 { x: 3, y: 4, z: 0 }.unit(), Vec3 { x: 0, y: 0, z: 0 });
}

#[test]
fn test_unit_magnitude_at_most_one() {
    let vectors = vec![
        Vec3 { x: 10, y: 0, z: 0 },
        Vec3 { x: 3, y: 4, z: 0 },
        Vec3 { x: 1, y: 1, z: 1 },
        Vec3 { x: -9, y: 12, z: 20 },
    ];
    for v in vectors {
        assert!(v.unit().magnitude() <= 1);
    }
}
