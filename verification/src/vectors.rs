//! Three-component vector algebra over machine integers.
//!
//! Every executable operation is specified against the mathematical model
//! [`V3`], a triple of unbounded integers, so that the algebraic laws of the
//! operations can be stated and proved without overflow side conditions.
//! The magnitude of a vector is the integer square root (the floor of the
//! real square root) of its squared magnitude, and normalization divides by
//! it with truncation; both are exact counterparts of square-root-then-cast
//! arithmetic on an integer vector.

use vstd::prelude::*;

verus! {

/// The mathematical model of a vector: three unbounded integers.
pub ghost struct V3 {
    pub x: int,
    pub y: int,
    pub z: int,
}

/// A three-component vector of 64-bit integers.
///
/// `Vec3` is used both for spatial positions and for directions; the type
/// alias [`Point`] marks the former usage but is the same representation.
#[derive(Clone, Copy, Debug, PartialEq, Eq, Structural)]
pub struct Vec3 {
    pub x: i64,
    pub y: i64,
    pub z: i64,
}

/// A spatial position; the same representation as a direction vector.
pub type Point = Vec3;

impl View for Vec3 {
    type V = V3;

    open spec fn view(&self) -> V3 {
        V3 { x: self.x as int, y: self.y as int, z: self.z as int }
    }
}

/// Whether an unbounded integer fits in an `i64` component.
pub open spec fn in_i64(n: int) -> bool {
    i64::MIN <= n <= i64::MAX
}

/// Whether all three components of a model vector fit in `i64`.
pub open spec fn v3_fits(v: V3) -> bool {
    in_i64(v.x) && in_i64(v.y) && in_i64(v.z)
}

/// The zero vector in the model.
pub open spec fn v3_zero() -> V3 {
    V3 { x: 0, y: 0, z: 0 }
}

/// Componentwise sum.
pub open spec fn v3_add(a: V3, b: V3) -> V3 {
    V3 { x: a.x + b.x, y: a.y + b.y, z: a.z + b.z }
}

/// Componentwise difference.
pub open spec fn v3_sub(a: V3, b: V3) -> V3 {
    V3 { x: a.x - b.x, y: a.y - b.y, z: a.z - b.z }
}

/// Componentwise negation.
pub open spec fn v3_neg(a: V3) -> V3 {
    V3 { x: -a.x, y: -a.y, z: -a.z }
}

/// Multiplication of every component by a scalar.
pub open spec fn v3_scale(a: V3, k: int) -> V3 {
    V3 { x: a.x * k, y: a.y * k, z: a.z * k }
}

/// The absolute value of an integer.
pub open spec fn abs_int(a: int) -> int {
    if a < 0 {
        -a
    } else {
        a
    }
}

/// Division truncating toward zero, as the `/` operator of the executable
/// code computes it on signed integers: the quotient of the absolute values,
/// negated when the operands' signs differ.
pub open spec fn trunc_div(a: int, b: int) -> int {
    if (a < 0) != (b < 0) {
        -(abs_int(a) / abs_int(b))
    } else {
        abs_int(a) / abs_int(b)
    }
}

/// Componentwise division by a scalar, truncating toward zero.
pub open spec fn v3_div(a: V3, k: int) -> V3 {
    V3 { x: trunc_div(a.x, k), y: trunc_div(a.y, k), z: trunc_div(a.z, k) }
}

/// Dot product: the sum of the componentwise products.
pub open spec fn v3_dot(a: V3, b: V3) -> int {
    a.x * b.x + a.y * b.y + a.z * b.z
}

/// Standard three-dimensional cross product.
pub open spec fn v3_cross(a: V3, b: V3) -> V3 {
    V3 {
        x: a.y * b.z - a.z * b.y,
        y: a.z * b.x - a.x * b.z,
        z: a.x * b.y - a.y * b.x,
    }
}

/// Overflow-freedom of the dot product as the executable code computes it:
/// every product and every partial sum fits in `i64`.
pub open spec fn dot_fits(a: V3, b: V3) -> bool {
    in_i64(a.x * b.x) && in_i64(a.y * b.y) && in_i64(a.z * b.z) && in_i64(
        a.x * b.x + a.y * b.y,
    ) && in_i64(v3_dot(a, b))
}

/// Overflow-freedom of the cross product as the executable code computes it:
/// every product and every difference of products fits in `i64`.
pub open spec fn cross_fits(a: V3, b: V3) -> bool {
    in_i64(a.y * b.z) && in_i64(a.z * b.y) && in_i64(a.z * b.x) && in_i64(a.x * b.z) && in_i64(
        a.x * b.y,
    ) && in_i64(a.y * b.x) && v3_fits(v3_cross(a, b))
}

/// `r` is the integer square root of `n`: the largest integer whose square
/// does not exceed `n`.
pub open spec fn is_floor_sqrt(n: int, r: int) -> bool {
    0 <= r && r * r <= n && n < (r + 1) * (r + 1)
}

/// The integer square root of `n` (meaningful for `n >= 0`; see
/// [`lemma_floor_sqrt`]).
pub open spec fn floor_sqrt(n: int) -> int {
    choose|r: int| is_floor_sqrt(n, r)
}

/// The magnitude of a model vector: the integer square root of its dot
/// product with itself.
pub open spec fn v3_mag(v: V3) -> int {
    floor_sqrt(v3_dot(v, v))
}

/// Every nonnegative integer has an integer square root, and [`floor_sqrt`]
/// denotes it.
pub proof fn lemma_floor_sqrt(n: int)
    requires
        n >= 0,
    ensures
        is_floor_sqrt(n, floor_sqrt(n)),
    decreases n,
{
    if n == 0 {
        assert(is_floor_sqrt(0, 0));
    } else {
        lemma_floor_sqrt(n - 1);
        let r = floor_sqrt(n - 1);
        if n == (r + 1) * (r + 1) {
            assert(is_floor_sqrt(n, r + 1)) by (nonlinear_arith)
                requires
                    n == (r + 1) * (r + 1),
                    0 <= r,
            ;
        } else {
            assert(is_floor_sqrt(n, r));
        }
    }
}

/// The integer square root is unique.
pub proof fn lemma_floor_sqrt_unique(n: int, r: int)
    requires
        is_floor_sqrt(n, r),
    ensures
        r == floor_sqrt(n),
{
    let s = floor_sqrt(n);
    assert(is_floor_sqrt(n, s));
    assert(r == s) by (nonlinear_arith)
        requires
            is_floor_sqrt(n, r),
            is_floor_sqrt(n, s),
    ;
}

impl Vec3 {
    /// The zero vector.
    pub fn zero() -> (r: Vec3)
        ensures
            r@ == v3_zero(),
    {
        Vec3 { x: 0, y: 0, z: 0 }
    }

    /// Adds two vectors componentwise.
    pub fn add(self, other: Vec3) -> (r: Vec3)
        requires
            v3_fits(v3_add(self@, other@)),
        ensures
            r@ == v3_add(self@, other@),
    {
        Vec3 { x: self.x + other.x, y: self.y + other.y, z: self.z + other.z }
    }

    /// Adds another vector to this one in place.
    pub fn add_assign(&mut self, other: Vec3)
        requires
            v3_fits(v3_add(old(self)@, other@)),
        ensures
            final(self)@ == v3_add(old(self)@, other@),
    {
        self.x = self.x + other.x;
        self.y = self.y + other.y;
        self.z = self.z + other.z;
    }

    /// Subtracts another vector from this one componentwise.
    pub fn sub(self, other: Vec3) -> (r: Vec3)
        requires
            v3_fits(v3_sub(self@, other@)),
        ensures
            r@ == v3_sub(self@, other@),
    {
        Vec3 { x: self.x - other.x, y: self.y - other.y, z: self.z - other.z }
    }

    /// Subtracts another vector from this one in place.
    pub fn sub_assign(&mut self, other: Vec3)
        requires
            v3_fits(v3_sub(old(self)@, other@)),
        ensures
            final(self)@ == v3_sub(old(self)@, other@),
    {
        self.x = self.x - other.x;
        self.y = self.y - other.y;
        self.z = self.z - other.z;
    }

    /// Multiplies every component by a scalar.
    pub fn mul(self, scalar: i64) -> (r: Vec3)
        requires
            v3_fits(v3_scale(self@, scalar as int)),
        ensures
            r@ == v3_scale(self@, scalar as int),
    {
        Vec3 { x: self.x * scalar, y: self.y * scalar, z: self.z * scalar }
    }

    /// Multiplies every component by a scalar in place.
    pub fn mul_assign(&mut self, scalar: i64)
        requires
            v3_fits(v3_scale(old(self)@, scalar as int)),
        ensures
            final(self)@ == v3_scale(old(self)@, scalar as int),
    {
        self.x = self.x * scalar;
        self.y = self.y * scalar;
        self.z = self.z * scalar;
    }

    /// Divides every component by a scalar, truncating toward zero.
    pub fn div(self, scalar: i64) -> (r: Vec3)
        requires
            scalar != 0,
            scalar == -1 ==> self.x != i64::MIN && self.y != i64::MIN && self.z != i64::MIN,
        ensures
            r@ == v3_div(self@, scalar as int),
    {
        Vec3 { x: div_i64(self.x, scalar), y: div_i64(self.y, scalar), z: div_i64(self.z, scalar) }
    }

    /// Divides every component by a scalar in place, truncating toward zero.
    pub fn div_assign(&mut self, scalar: i64)
        requires
            scalar != 0,
            scalar == -1 ==> old(self).x != i64::MIN && old(self).y != i64::MIN && old(self).z
                != i64::MIN,
        ensures
            final(self)@ == v3_div(old(self)@, scalar as int),
    {
        self.x = div_i64(self.x, scalar);
        self.y = div_i64(self.y, scalar);
        self.z = div_i64(self.z, scalar);
    }

    /// Negates every component.
    pub fn neg(self) -> (r: Vec3)
        requires
            v3_fits(v3_neg(self@)),
        ensures
            r@ == v3_neg(self@),
    {
        Vec3 { x: -self.x, y: -self.y, z: -self.z }
    }

    /// The cross product of two vectors.
    pub fn cross(lhs: &Vec3, rhs: &Vec3) -> (r: Vec3)
        requires
            cross_fits(lhs@, rhs@),
        ensures
            r@ == v3_cross(lhs@, rhs@),
    {
        Vec3 {
            x: lhs.y * rhs.z - lhs.z * rhs.y,
            y: lhs.z * rhs.x - lhs.x * rhs.z,
            z: lhs.x * rhs.y - lhs.y * rhs.x,
        }
    }

    /// The dot product of two vectors.
    pub fn dot(&self, other: &Vec3) -> (r: i64)
        requires
            dot_fits(self@, other@),
        ensures
            r == v3_dot(self@, other@),
    {
        self.x * other.x + self.y * other.y + self.z * other.z
    }

    /// The squared magnitude of the vector: its dot product with itself.
    pub fn magnitude_squared(&self) -> (r: i64)
        requires
            dot_fits(self@, self@),
        ensures
            r == v3_dot(self@, self@),
            r >= 0,
    {
        proof {
            assert(v3_dot(self@, self@) >= 0) by (nonlinear_arith);
        }
        self.dot(self)
    }

    /// The magnitude of the vector: the integer square root of the squared
    /// magnitude.
    pub fn magnitude(&self) -> (r: i64)
        requires
            dot_fits(self@, self@),
        ensures
            r == v3_mag(self@),
            is_floor_sqrt(v3_dot(self@, self@), r as int),
    {
        let n = self.magnitude_squared();
        let r = isqrt(n);
        proof {
            lemma_floor_sqrt_unique(n as int, r as int);
        }
        r
    }

    /// Rescales the vector by dividing it by its magnitude, truncating each
    /// component toward zero.
    pub fn unit(&self) -> (r: Vec3)
        requires
            dot_fits(self@, self@),
            v3_dot(self@, self@) > 0,
        ensures
            r@ == v3_div(self@, v3_mag(self@)),
    {
        let m = self.magnitude();
        proof {
            assert(m >= 1) by (nonlinear_arith)
                requires
                    is_floor_sqrt(v3_dot(self@, self@), m as int),
                    v3_dot(self@, self@) > 0,
            ;
        }
        self.div(m)
    }
}

/// Divides two signed integers, truncating toward zero as Rust's `/` does.
fn div_i64(a: i64, b: i64) -> (r: i64)
    requires
        b != 0,
        !(a == i64::MIN && b == -1),
    ensures
        r == trunc_div(a as int, b as int),
{
    if b > 0 {
        a / b
    } else {
        let wa: i128 = a as i128;
        let wb: i128 = b as i128;
        let qa: i128 = if wa < 0 {
            -wa
        } else {
            wa
        };
        let qb: i128 = -wb;
        let q: i128 = qa / qb;
        proof {
            vstd::arithmetic::div_mod::lemma_div_pos_is_pos(qa as int, qb as int);
            vstd::arithmetic::div_mod::lemma_div_nonincreasing(qa as int, qb as int);
            if qb >= 2 {
                vstd::arithmetic::div_mod::lemma_div_is_ordered_by_denominator(
                    qa as int,
                    2,
                    qb as int,
                );
                vstd::arithmetic::div_mod::lemma_div_is_ordered_by_denominator(qa as int, 2, 2);
            }
        }
        if a >= 0 {
            (-q) as i64
        } else {
            q as i64
        }
    }
}

/// The largest `i64` whose square still fits in an `i64`.
const ISQRT_MAX: i64 = 3_037_000_499;

/// Computes the integer square root of a nonnegative `i64` by binary search.
fn isqrt(n: i64) -> (r: i64)
    requires
        n >= 0,
    ensures
        is_floor_sqrt(n as int, r as int),
{
    let mut lo: i64 = 0;
    let mut hi: i64 = if n < ISQRT_MAX {
        n
    } else {
        ISQRT_MAX
    };
    proof {
        assert((hi + 1) * (hi + 1) > n) by (nonlinear_arith)
            requires
                hi == if n < ISQRT_MAX {
                    n as int
                } else {
                    ISQRT_MAX as int
                },
                n >= 0,
        ;
    }
    while lo < hi
        invariant
            0 <= lo <= hi <= ISQRT_MAX,
            lo * lo <= n,
            (hi + 1) * (hi + 1) > n,
        decreases hi - lo,
    {
        let mid = lo + (hi - lo + 1) / 2;
        proof {
            assert(mid * mid <= ISQRT_MAX * ISQRT_MAX) by (nonlinear_arith)
                requires
                    0 <= mid <= ISQRT_MAX,
            ;
        }
        if mid * mid <= n {
            lo = mid;
        } else {
            hi = mid - 1;
        }
    }
    lo
}

/// Truncating division of a value by a bound of its absolute value stays
/// within `[-1, 1]`.
proof fn lemma_trunc_div_unit_bound(a: int, b: int)
    requires
        b >= 1,
        -b <= a <= b,
    ensures
        -1 <= trunc_div(a, b) <= 1,
{
    vstd::arithmetic::div_mod::lemma_div_pos_is_pos(abs_int(a), b);
    vstd::arithmetic::div_mod::lemma_div_is_ordered(abs_int(a), b, b);
    vstd::arithmetic::div_mod::lemma_div_by_self(b);
}

/// Normalizing a nonzero vector leaves a magnitude of at most 1: the
/// truncating counterpart of a unit vector's magnitude being 1 (truncation
/// can shorten the result, never lengthen it).
pub proof fn lemma_unit_magnitude_at_most_one(v: V3)
    requires
        v3_dot(v, v) > 0,
    ensures
        0 <= v3_mag(v3_div(v, v3_mag(v))) <= 1,
{
    let s = v3_dot(v, v);
    lemma_floor_sqrt(s);
    let m = v3_mag(v);
    assert(is_floor_sqrt(s, m));
    assert(m >= 1) by (nonlinear_arith)
        requires
            is_floor_sqrt(s, m),
            s > 0,
    ;
    assert(v.x * v.x <= s && v.y * v.y <= s && v.z * v.z <= s) by (nonlinear_arith)
        requires
            s == v.x * v.x + v.y * v.y + v.z * v.z,
    ;
    assert(-m <= v.x <= m) by (nonlinear_arith)
        requires
            v.x * v.x <= s,
            s < (m + 1) * (m + 1),
            m >= 0,
    ;
    assert(-m <= v.y <= m) by (nonlinear_arith)
        requires
            v.y * v.y <= s,
            s < (m + 1) * (m + 1),
            m >= 0,
    ;
    assert(-m <= v.z <= m) by (nonlinear_arith)
        requires
            v.z * v.z <= s,
            s < (m + 1) * (m + 1),
            m >= 0,
    ;
    lemma_trunc_div_unit_bound(v.x, m);
    lemma_trunc_div_unit_bound(v.y, m);
    lemma_trunc_div_unit_bound(v.z, m);
    let u = v3_div(v, m);
    let su = v3_dot(u, u);
    assert(0 <= su <= 3) by (nonlinear_arith)
        requires
            su == u.x * u.x + u.y * u.y + u.z * u.z,
            -1 <= u.x <= 1,
            -1 <= u.y <= 1,
            -1 <= u.z <= 1,
    ;
    lemma_floor_sqrt(su);
    let mu = v3_mag(u);
    assert(is_floor_sqrt(su, mu));
    assert(mu <= 1) by (nonlinear_arith)
        requires
            is_floor_sqrt(su, mu),
            su <= 3,
    ;
}

/// Vector addition is commutative.
pub proof fn lemma_add_commutative(a: V3, b: V3)
    ensures
        v3_add(a, b) == v3_add(b, a),
{
}

/// Subtraction in one order is the negation of subtraction in the other.
pub proof fn lemma_sub_negate(a: V3, b: V3)
    ensures
        v3_sub(a, b) == v3_neg(v3_sub(b, a)),
{
}

/// The cross product is anticommutative.
pub proof fn lemma_cross_anticommutative(a: V3, b: V3)
    ensures
        v3_cross(a, b) == v3_neg(v3_cross(b, a)),
{
    assert(v3_cross(a, b).x == v3_neg(v3_cross(b, a)).x) by (nonlinear_arith);
    assert(v3_cross(a, b).y == v3_neg(v3_cross(b, a)).y) by (nonlinear_arith);
    assert(v3_cross(a, b).z == v3_neg(v3_cross(b, a)).z) by (nonlinear_arith);
}

/// The cross product of a vector with itself is the zero vector.
pub proof fn lemma_cross_self_zero(a: V3)
    ensures
        v3_cross(a, a) == v3_zero(),
{
    assert(a.y * a.z - a.z * a.y == 0) by (nonlinear_arith);
    assert(a.z * a.x - a.x * a.z == 0) by (nonlinear_arith);
    assert(a.x * a.y - a.y * a.x == 0) by (nonlinear_arith);
}

/// The dot product is linear in a scalar factor of its first argument.
pub proof fn lemma_dot_scale_linear(a: V3, b: V3, k: int)
    ensures
        v3_dot(v3_scale(a, k), b) == k * v3_dot(a, b),
{
    assert((a.x * k) * b.x == k * (a.x * b.x)) by (nonlinear_arith);
    assert((a.y * k) * b.y == k * (a.y * b.y)) by (nonlinear_arith);
    assert((a.z * k) * b.z == k * (a.z * b.z)) by (nonlinear_arith);
    assert(k * (a.x * b.x) + k * (a.y * b.y) + k * (a.z * b.z) == k * (a.x * b.x + a.y * b.y + a.z
        * b.z)) by (nonlinear_arith);
}

/// The dot product is additive in its first argument.
pub proof fn lemma_dot_add_linear(a: V3, b: V3, c: V3)
    ensures
        v3_dot(v3_add(a, b), c) == v3_dot(a, c) + v3_dot(b, c),
{
    assert((a.x + b.x) * c.x == a.x * c.x + b.x * c.x) by (nonlinear_arith);
    assert((a.y + b.y) * c.y == a.y * c.y + b.y * c.y) by (nonlinear_arith);
    assert((a.z + b.z) * c.z == a.z * c.z + b.z * c.z) by (nonlinear_arith);
}

} // verus!

