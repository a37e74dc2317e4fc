use raytracer::ray::Ray;
use raytracer::vectors::Vec3;

#[test]
fn test_origin() {
    let expected_orig = Vec3 { x: 1, y: 2, z: 3 };
    let r = Ray {
        orig: expected_orig,
        dir: Vec3::zero(),
    };

    assert_eq!(r.origin(), expected_orig, "origin should match expected");
}

#[test]
fn test_direction() {
    let expected_dir = Vec3 { x: 1, y: 2, z: 3 };
    let r = Ray {
        orig: Vec3::zero(),
        dir: expected_dir,
    };

    assert_eq!(r.direction(), expected_dir, "origin should match expected");
}

#[test]
fn test_at() {
    let r = Ray {
        orig: Vec3 { x: 1, y: 2, z: 3 },
        dir: Vec3 { x: 2, y: 1, z: -2 },
    };

    assert_eq!(
        r.at(0),
        Vec3 { x: 1, y: 2, z: 3 },
        "at(0) should return the origin"
    );
    assert_eq!(
        r.at(1),
        Vec3 { x: 3, y: 3, z: 1 },
        "at(1) should advance a full step"
    );
    assert_eq!(
        r.at(-1),
        Vec3 { x: -1, y: 1, z: 5 },
        "at(-1) should regress a full step"
    );
}
