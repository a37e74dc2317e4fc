use raytracer::vectors::Vec3;

#[test]
fn test_add() {
    let a = Vec3 { x: 1, y: 2, z: 3 };
    let b = Vec3 { x: 4, y: 5, z: 6 };

    let expected = Vec3 { x: 5, y: 7, z: 9 };

    let actual = a.add(b);

    assert_eq!(expected, actual, "Vec3 add should work as expected");
}

#[test]
fn test_add_assign() {
    let mut a = Vec3 { x: 1, y: 2, z: 3 };
    let b = Vec3 { x: 4, y: 5, z: 6 };

    let expected = Vec3 { x: 5, y: 7, z: 9 };

    a.add_assign(b);

    assert_eq!(expected, a, "Vec3 add_assign should work as expected");
}

#[test]
fn test_sub() {
    let a = Vec3 { x: 3, y: 2, z: 1 };
    let b = Vec3 { x: 4, y: 5, z: 6 };

    let expected = Vec3 { x: -1, y: -3, z: -5 };

    let actual = a.sub(b);

    assert_eq!(expected, actual, "Vec3 sub should work as expected");
}

#[test]
fn test_sub_assign() {
    let mut a = Vec3 { x: 3, y: 2, z: 1 };
    let b = Vec3 { x: 4, y: 5, z: 6 };

    let expected = Vec3 { x: -1, y: -3, z: -5 };

    a.sub_assign(b);

    assert_eq!(expected, a, "Vec3 sub_assign should work as expected");
}

#[test]
fn test_mul_scalar() {
    let a = Vec3 { x: 3, y: 2, z: 1 };

    let expected = Vec3 { x: 6, y: 4, z: 2 };

    let actual = a.mul(2);

    assert_eq!(
        expected, actual,
        "Vec3 multiplied by scalar should multiply each element by the scalar"
    );
}

#[test]
fn test_mul_assign_scalar() {
    let mut a = Vec3 { x: 3, y: 2, z: 1 };

    let expected = Vec3 { x: 6, y: 4, z: 2 };

    a.mul_assign(2);

    assert_eq!(
        expected, a,
        "Vec3 multiplied by scalar should multiply each element by the scalar"
    );
}

#[test]
fn test_div_scalar() {
    let a = Vec3 { x: 6, y: 4, z: 2 };

    let expected = Vec3 { x: 3, y: 2, z: 1 };

    let actual = a.div(2);

    assert_eq!(
        expected, actual,
        "Vec3 divided by scalar should divide each element by the scalar"
    );
}

#[test]
fn test_div_assign_scalar() {
    let mut a = Vec3 { x: 6, y: 4, z: 2 };

    let expected = Vec3 { x: 3, y: 2, z: 1 };

    a.div_assign(2);

    assert_eq!(
        expected, a,
        "Vec3 divided by scalar should divide each element by the scalar"
    );
}

#[test]
fn test_mul_by_vector() {
    let a = Vec3 { x: 1, y: 2, z: 3 };
    let b = Vec3 { x: 4, y: 5, z: 6 };

    assert_eq!(
        a.dot(&b),
        32,
        "Vec3 multiplied by a Vec3 should perform the dot product of the two vectors"
    );
}

#[test]
fn test_magnitude() {
    let a = Vec3 { x: 3, y: 2, z: 1 };

    assert_eq!(
        a.magnitude(),
        (14 as f64).sqrt() as i64,
        "Vec3 magnitude should correctly calculate the magnitude"
    );
}

#[test]
fn test_negate_vector() {
    let a = Vec3 { x: 3, y: -2, z: 0 };

    let expected = Vec3 { x: -3, y: 2, z: 0 };

    assert_eq!(
        a.neg(),
        expected,
        "vector negation should negate each element of the vector"
    )
}

#[test]
fn test_cross_product() {
    let a = Vec3 { x: 1, y: 2, z: 3 };
    let b = Vec3 { x: 4, y: 5, z: 6 };

    let expected = Vec3 { x: -3, y: 6, z: -3 };

    assert_eq!(
        Vec3::cross(&a, &b),
        expected,
        "cross product of two 3d vectors should work as expected"
    )
}

#[test]
fn test_unit_vector() {
    // Over integers the magnitude of (1, 1, 1) is the integer square root
    // of 3, which is 1, so truncating normalization leaves the vector as is.
    let a = Vec3 { x: 1, y: 1, z: 1 };

    let expected = Vec3 { x: 1, y: 1, z: 1 };

    assert_eq!(
        a.unit(),
        expected,
        "should calculate the unit vector correctly"
    )
}
