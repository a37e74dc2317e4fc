//! Color channels and their plain-text encoding.
//!
//! A color is stored as the three encoded channel values of a pixel line:
//! integers in `[0, 255]`, each the floor of a color component scaled by 255.
//!
//! The gradient shading assigns a pixel the color
//! `white * (1 - a) + blue * a`, where `a = (uy + 1) / 2` and `uy` is the
//! `y` component of the unit direction of the pixel's ray: `uy = dy / m`
//! with `m = sqrt(s)`, `s` the squared magnitude of the direction.  For a
//! direction component `dy` and each channel the scaled component is a value
//! `(p * m + q * dy) / (r * m)` for fixed integer coefficients `p`, `q`, `r`,
//! and its floor is computed exactly: every comparison against the
//! irrational `m` is decided by comparing squares.

use vstd::prelude::*;

verus! {

/// Whether `l * sqrt(s) <= d`, stated without square roots (`s >= 0`).
///
/// The comparison is decided by signs and by comparing squares: for
/// nonpositive `l` it holds whenever `d` is nonnegative, and otherwise
/// reduces to `d * d <= l * l * s`; for positive `l` it requires `d`
/// nonnegative and `l * l * s <= d * d`.
pub open spec fn sqrt_le(l: int, s: int, d: int) -> bool {
    if l <= 0 {
        d >= 0 || d * d <= l * l * s
    } else {
        d >= 0 && l * l * s <= d * d
    }
}

/// `sqrt_le` can only become false as its left factor grows.
pub proof fn lemma_sqrt_le_antitone(l1: int, l2: int, s: int, d: int)
    requires
        s >= 0,
        l1 <= l2,
        sqrt_le(l2, s, d),
    ensures
        sqrt_le(l1, s, d),
{
    if l1 <= 0 {
        if d < 0 {
            assert(l2 <= 0);
            assert(d * d <= l2 * l2 * s);
            assert(l2 * l2 * s <= l1 * l1 * s) by (nonlinear_arith)
                requires
                    l1 <= l2 <= 0,
                    s >= 0,
            ;
        }
    } else {
        assert(l2 > 0);
        assert(d >= 0 && l2 * l2 * s <= d * d);
        assert(l1 * l1 * s <= l2 * l2 * s) by (nonlinear_arith)
            requires
                0 < l1 <= l2,
                s >= 0,
            ;
    }
}

/// Whether `k <= (p * sqrt(s) + q * dy) / (r * sqrt(s))`, for positive `r`
/// and `s`: equivalently, `(k * r - p) * sqrt(s) <= q * dy`.
pub open spec fn channel_at_most(p: int, q: int, r: int, dy: int, s: int, k: int) -> bool {
    sqrt_le(k * r - p, s, q * dy)
}

/// `k` is the encoded channel value `(p * sqrt(s) + q * dy) / (r * sqrt(s))`,
/// rounded down and capped at 255.
pub open spec fn is_gradient_channel(p: int, q: int, r: int, dy: int, s: int, k: int) -> bool {
    0 <= k <= 255 && channel_at_most(p, q, r, dy, s, k) && (k == 255 || !channel_at_most(
        p,
        q,
        r,
        dy,
        s,
        k + 1,
    ))
}

/// The encoded channel value (see [`is_gradient_channel`] and
/// [`lemma_gradient_channel_exists`]).
pub open spec fn gradient_channel_val(p: int, q: int, r: int, dy: int, s: int) -> int {
    choose|k: int| is_gradient_channel(p, q, r, dy, s, k)
}

/// The coefficient ranges under which a gradient channel is computed: the
/// blend of white (255) and blue stays within `[0, 255]` exactly when the
/// negated coefficient of `dy` does not exceed the constant coefficient.
pub open spec fn channel_coeffs_ok(p: int, q: int, r: int) -> bool {
    1 <= r <= 100 && 0 <= p <= 10000 && -1000 <= q <= 0 && -q <= p
}

/// The channel value is never negative: candidate zero always passes.
proof fn lemma_channel_at_most_zero(p: int, q: int, r: int, dy: int, s: int)
    requires
        channel_coeffs_ok(p, q, r),
        s > 0,
        dy * dy <= s,
    ensures
        channel_at_most(p, q, r, dy, s, 0),
{
    let d = q * dy;
    if d < 0 {
        assert(d * d <= p * p * s) by (nonlinear_arith)
            requires
                dy * dy <= s,
                -1000 <= q <= 0 && 0 <= -q <= p,
                d == q * dy,
        ;
    }
    assert(0 * r - p == -p);
    assert(-p * -p == p * p) by (nonlinear_arith);
}

proof fn lemma_channel_exists_from(p: int, q: int, r: int, dy: int, s: int, j: int)
    requires
        s >= 0,
        0 <= j <= 255,
        channel_at_most(p, q, r, dy, s, j),
    ensures
        exists|k: int| is_gradient_channel(p, q, r, dy, s, k),
    decreases 255 - j,
{
    if j == 255 {
        assert(is_gradient_channel(p, q, r, dy, s, 255));
    } else if !channel_at_most(p, q, r, dy, s, j + 1) {
        assert(is_gradient_channel(p, q, r, dy, s, j));
    } else {
        lemma_channel_exists_from(p, q, r, dy, s, j + 1);
    }
}

/// Under the coefficient ranges, a channel value exists and
/// [`gradient_channel_val`] denotes it.
pub proof fn lemma_gradient_channel_exists(p: int, q: int, r: int, dy: int, s: int)
    requires
        channel_coeffs_ok(p, q, r),
        s > 0,
        dy * dy <= s,
    ensures
        is_gradient_channel(p, q, r, dy, s, gradient_channel_val(p, q, r, dy, s)),
{
    lemma_channel_at_most_zero(p, q, r, dy, s);
    lemma_channel_exists_from(p, q, r, dy, s, 0);
    let k = gradient_channel_val(p, q, r, dy, s);
    assert(is_gradient_channel(p, q, r, dy, s, k));
}

/// The channel value is unique.
pub proof fn lemma_gradient_channel_unique(p: int, q: int, r: int, dy: int, s: int, k: int)
    requires
        channel_coeffs_ok(p, q, r),
        s > 0,
        dy * dy <= s,
        is_gradient_channel(p, q, r, dy, s, k),
    ensures
        k == gradient_channel_val(p, q, r, dy, s),
{
    lemma_gradient_channel_exists(p, q, r, dy, s);
    let k2 = gradient_channel_val(p, q, r, dy, s);
    if k < k2 {
        assert(k < 255);
        assert((k + 1) * r <= k2 * r) by (nonlinear_arith)
            requires
                k + 1 <= k2,
                r >= 1,
        ;
        lemma_sqrt_le_antitone((k + 1) * r - p, k2 * r - p, s, q * dy);
        assert(false);
    } else if k2 < k {
        assert(k2 < 255);
        assert((k2 + 1) * r <= k * r) by (nonlinear_arith)
            requires
                k2 + 1 <= k,
                r >= 1,
        ;
        lemma_sqrt_le_antitone((k2 + 1) * r - p, k * r - p, s, q * dy);
        assert(false);
    }
}

/// `sqrt_le` can only become true as its right side grows.
pub proof fn lemma_sqrt_le_mono_right(l: int, s: int, d1: int, d2: int)
    requires
        s >= 0,
        d1 <= d2,
        sqrt_le(l, s, d1),
    ensures
        sqrt_le(l, s, d2),
{
    if l <= 0 {
        if d2 < 0 {
            assert(d1 < 0);
            assert(d1 * d1 <= l * l * s);
            assert(d2 * d2 <= d1 * d1) by (nonlinear_arith)
                requires
                    d1 <= d2 < 0,
            ;
        }
    } else {
        assert(d1 >= 0 && l * l * s <= d1 * d1);
        assert(d1 * d1 <= d2 * d2) by (nonlinear_arith)
            requires
                0 <= d1 <= d2,
            ;
    }
}

/// Any candidate the comparison still accepts is at most the channel value.
proof fn lemma_channel_at_most_le_val(p: int, q: int, r: int, dy: int, s: int, j: int)
    requires
        channel_coeffs_ok(p, q, r),
        s > 0,
        dy * dy <= s,
        0 <= j <= 255,
        channel_at_most(p, q, r, dy, s, j),
    ensures
        j <= gradient_channel_val(p, q, r, dy, s),
{
    lemma_gradient_channel_exists(p, q, r, dy, s);
    let v = gradient_channel_val(p, q, r, dy, s);
    if v < j {
        assert(v < 255);
        assert((v + 1) * r <= j * r) by (nonlinear_arith)
            requires
                v + 1 <= j,
                r >= 1,
        ;
        lemma_sqrt_le_antitone((v + 1) * r - p, j * r - p, s, q * dy);
        assert(false);
    }
}

/// Among directions of equal squared magnitude, the one pointing higher
/// (larger `y` component, so larger unit-direction y) has the smaller
/// channel value: the gradient runs from white below to blue above.
pub proof fn lemma_gradient_channel_antitone_in_y(
    p: int,
    q: int,
    r: int,
    dy1: int,
    dy2: int,
    s: int,
)
    requires
        channel_coeffs_ok(p, q, r),
        s > 0,
        dy1 * dy1 <= s,
        dy2 * dy2 <= s,
        dy1 <= dy2,
    ensures
        gradient_channel_val(p, q, r, dy2, s) <= gradient_channel_val(p, q, r, dy1, s),
{
    lemma_gradient_channel_exists(p, q, r, dy2, s);
    let v2 = gradient_channel_val(p, q, r, dy2, s);
    assert(q * dy2 <= q * dy1) by (nonlinear_arith)
        requires
            q <= 0,
            dy1 <= dy2,
    ;
    lemma_sqrt_le_mono_right(v2 * r - p, s, q * dy2, q * dy1);
    lemma_channel_at_most_le_val(p, q, r, dy1, s, v2);
}

/// Scaling the direction by a positive factor leaves the comparison
/// unchanged: `l * sqrt(t*t*s) <= t*d` exactly when `l * sqrt(s) <= d`.
pub proof fn lemma_sqrt_le_scale(l: int, s: int, d: int, t: int)
    requires
        t > 0,
        s >= 0,
    ensures
        sqrt_le(l, t * t * s, t * d) == sqrt_le(l, s, d),
{
    assert(t * t * s >= 0) by (nonlinear_arith)
        requires
            t > 0,
            s >= 0,
    ;
    if d >= 0 {
        assert(t * d >= 0) by (nonlinear_arith)
            requires
                t > 0,
                d >= 0,
        ;
    } else {
        assert(t * d < 0) by (nonlinear_arith)
            requires
                t > 0,
                d < 0,
        ;
    }
    assert(((t * d) * (t * d) <= l * l * (t * t * s)) == (d * d <= l * l * s))
        by (nonlinear_arith)
        requires
            t > 0,
    ;
    assert((l * l * (t * t * s) <= (t * d) * (t * d)) == (l * l * s <= d * d))
        by (nonlinear_arith)
        requires
            t > 0,
    ;
}

/// The channel value of a direction is invariant under scaling the
/// direction by a positive factor, which multiplies its `y` component by
/// `t` and its squared magnitude by `t * t`.  This is what lets the camera
/// store world-space geometry in integer units: rescaled ray directions
/// shade identically.
pub proof fn lemma_gradient_channel_scale_invariant(
    p: int,
    q: int,
    r: int,
    dy: int,
    s: int,
    t: int,
    k: int,
)
    requires
        t > 0,
        s >= 0,
    ensures
        is_gradient_channel(p, q, r, t * dy, t * t * s, k) == is_gradient_channel(p, q, r, dy, s, k),
{
    assert(q * (t * dy) == t * (q * dy)) by (nonlinear_arith);
    lemma_sqrt_le_scale(k * r - p, s, q * dy, t);
    lemma_sqrt_le_scale((k + 1) * r - p, s, q * dy, t);
}

/// With a level direction (`dy == 0`) the channel value is `p / r`: the
/// blend weight is one half.
pub proof fn lemma_channel_val_level(p: int, q: int, r: int, s: int)
    requires
        channel_coeffs_ok(p, q, r),
        p <= 255 * r,
        s > 0,
    ensures
        gradient_channel_val(p, q, r, 0, s) == p / r,
{
    let k0 = p / r;
    vstd::arithmetic::div_mod::lemma_fundamental_div_mod(p, r);
    vstd::arithmetic::div_mod::lemma_mod_division_less_than_divisor(p, r);
    let rem = p % r;
    vstd::arithmetic::div_mod::lemma_div_pos_is_pos(p, r);
    vstd::arithmetic::div_mod::lemma_div_is_ordered(p, 255 * r, r);
    vstd::arithmetic::div_mod::lemma_div_multiples_vanish(255, r);
    assert(r * 255 == 255 * r) by (nonlinear_arith);
    assert(k0 <= 255);
    assert(k0 * r - p == -rem) by (nonlinear_arith)
        requires
            p == r * k0 + rem,
    ;
    assert(channel_at_most(p, q, r, 0, s, k0));
    if k0 < 255 {
        let l2 = (k0 + 1) * r - p;
        assert(l2 == r - rem) by (nonlinear_arith)
            requires
                p == r * k0 + rem,
                l2 == (k0 + 1) * r - p,
        ;
        assert(l2 * l2 * s > 0) by (nonlinear_arith)
            requires
                l2 >= 1,
                s > 0,
        ;
        assert(!channel_at_most(p, q, r, 0, s, k0 + 1));
    }
    lemma_gradient_channel_unique(p, q, r, 0, s, k0);
}

/// With a direction pointing straight down (`dy < 0` and `dy * dy == s`,
/// so the unit y component is -1) the channel value is `(p - q) / r`: the
/// blend weight is zero.
pub proof fn lemma_channel_val_down(p: int, q: int, r: int, dy: int, s: int)
    requires
        channel_coeffs_ok(p, q, r),
        p - q <= 255 * r,
        dy < 0,
        dy * dy == s,
    ensures
        gradient_channel_val(p, q, r, dy, s) == (p - q) / r,
{
    assert(s > 0) by (nonlinear_arith)
        requires
            dy < 0,
            dy * dy == s,
    ;
    let a = p - q;
    let k0 = a / r;
    vstd::arithmetic::div_mod::lemma_fundamental_div_mod(a, r);
    vstd::arithmetic::div_mod::lemma_mod_division_less_than_divisor(a, r);
    let rem = a % r;
    vstd::arithmetic::div_mod::lemma_div_pos_is_pos(a, r);
    vstd::arithmetic::div_mod::lemma_div_is_ordered(a, 255 * r, r);
    vstd::arithmetic::div_mod::lemma_div_multiples_vanish(255, r);
    assert(r * 255 == 255 * r) by (nonlinear_arith);
    assert(k0 <= 255);
    let l = k0 * r - p;
    assert(l == -q - rem) by (nonlinear_arith)
        requires
            a == r * k0 + rem,
            a == p - q,
            l == k0 * r - p,
    ;
    let d = q * dy;
    assert(d >= 0) by (nonlinear_arith)
        requires
            q <= 0,
            dy < 0,
            d == q * dy,
    ;
    assert(d * d == q * q * s) by (nonlinear_arith)
        requires
            d == q * dy,
            dy * dy == s,
    ;
    if l > 0 {
        assert(l * l * s <= d * d) by (nonlinear_arith)
            requires
                0 < l <= -q,
                d * d == q * q * s,
                s > 0,
        ;
    }
    assert(channel_at_most(p, q, r, dy, s, k0));
    if k0 < 255 {
        let l2 = (k0 + 1) * r - p;
        assert(l2 == -q + (r - rem)) by (nonlinear_arith)
            requires
                a == r * k0 + rem,
                a == p - q,
                l2 == (k0 + 1) * r - p,
        ;
        assert(l2 * l2 * s > d * d) by (nonlinear_arith)
            requires
                l2 >= -q + 1,
                -q >= 0,
                d * d == q * q * s,
                s > 0,
        ;
        assert(!channel_at_most(p, q, r, dy, s, k0 + 1));
    }
    lemma_gradient_channel_unique(p, q, r, dy, s, k0);
}

/// With a direction pointing straight up (`dy > 0` and `dy * dy == s`, so
/// the unit y component is 1) the channel value is `(p + q) / r`: the blend
/// weight is one.
pub proof fn lemma_channel_val_up(p: int, q: int, r: int, dy: int, s: int)
    requires
        channel_coeffs_ok(p, q, r),
        p + q <= 255 * r,
        dy > 0,
        dy * dy == s,
    ensures
        gradient_channel_val(p, q, r, dy, s) == (p + q) / r,
{
    assert(s > 0) by (nonlinear_arith)
        requires
            dy > 0,
            dy * dy == s,
    ;
    let a = p + q;
    let k0 = a / r;
    vstd::arithmetic::div_mod::lemma_fundamental_div_mod(a, r);
    vstd::arithmetic::div_mod::lemma_mod_division_less_than_divisor(a, r);
    let rem = a % r;
    vstd::arithmetic::div_mod::lemma_div_pos_is_pos(a, r);
    vstd::arithmetic::div_mod::lemma_div_is_ordered(a, 255 * r, r);
    vstd::arithmetic::div_mod::lemma_div_multiples_vanish(255, r);
    assert(r * 255 == 255 * r) by (nonlinear_arith);
    assert(k0 <= 255);
    let l = k0 * r - p;
    assert(l == q - rem) by (nonlinear_arith)
        requires
            a == r * k0 + rem,
            a == p + q,
            l == k0 * r - p,
    ;
    let d = q * dy;
    assert(d <= 0) by (nonlinear_arith)
        requires
            q <= 0,
            dy > 0,
            d == q * dy,
    ;
    assert(d * d == q * q * s) by (nonlinear_arith)
        requires
            d == q * dy,
            dy * dy == s,
    ;
    if d < 0 {
        assert(d * d <= l * l * s) by (nonlinear_arith)
            requires
                l <= q <= 0,
                d * d == q * q * s,
                s > 0,
        ;
    }
    assert(channel_at_most(p, q, r, dy, s, k0));
    if k0 < 255 {
        let l2 = (k0 + 1) * r - p;
        assert(l2 == q + (r - rem)) by (nonlinear_arith)
            requires
                a == r * k0 + rem,
                a == p + q,
                l2 == (k0 + 1) * r - p,
        ;
        if q == 0 {
            assert(d == 0) by (nonlinear_arith)
                requires
                    q == 0,
                    d == q * dy,
            ;
            assert(l2 * l2 * s > 0) by (nonlinear_arith)
                requires
                    l2 >= 1,
                    s > 0,
            ;
        } else if l2 <= 0 {
            assert(d < 0) by (nonlinear_arith)
                requires
                    q <= -1,
                    dy >= 1,
                    d == q * dy,
            ;
            assert(d * d > l2 * l2 * s) by (nonlinear_arith)
                requires
                    q + 1 <= l2 <= 0,
                    q <= -1,
                    d * d == q * q * s,
                    s > 0,
            ;
        } else {
            assert(d < 0) by (nonlinear_arith)
                requires
                    q <= -1,
                    dy >= 1,
                    d == q * dy,
            ;
        }
        assert(!channel_at_most(p, q, r, dy, s, k0 + 1));
    }
    lemma_gradient_channel_unique(p, q, r, dy, s, k0);
}

/// Decides `l * sqrt(s) <= d` by comparing squares in 128-bit arithmetic.
fn sqrt_le_exec(l: i64, s: i64, d: i64) -> (b: bool)
    requires
        s >= 0,
        -100_000 <= l <= 100_000,
        -10_000_000_000_000 <= d <= 10_000_000_000_000,
    ensures
        b == sqrt_le(l as int, s as int, d as int),
{
    proof {
        assert(0 <= (l as int) * (l as int) <= 10_000_000_000) by (nonlinear_arith)
            requires
                -100_000 <= l <= 100_000,
        ;
        assert(0 <= (d as int) * (d as int) <= 0x100_0000_0000_0000_0000_0000_0000)
            by (nonlinear_arith)
            requires
                -10_000_000_000_000 <= d <= 10_000_000_000_000,
        ;
    }
    let ll: i128 = (l as i128) * (l as i128);
    proof {
        assert(0 <= ll * (s as int) <= 0x100_0000_0000_0000_0000_0000_0000) by (nonlinear_arith)
            requires
                0 <= ll <= 10_000_000_000,
                0 <= s <= 0x7fff_ffff_ffff_ffff,
        ;
    }
    let lls: i128 = ll * (s as i128);
    let dd: i128 = (d as i128) * (d as i128);
    if l <= 0 {
        d >= 0 || dd <= lls
    } else {
        d >= 0 && lls <= dd
    }
}

/// Computes the channel value `(p * sqrt(s) + q * dy) / (r * sqrt(s))`,
/// rounded down and capped at 255, exactly: each candidate is compared
/// against the irrational bound by comparing squares.
pub fn gradient_channel(p: i64, q: i64, r: i64, dy: i64, s: i64) -> (k: u8)
    requires
        channel_coeffs_ok(p as int, q as int, r as int),
        s > 0,
        dy * dy <= s,
    ensures
        is_gradient_channel(p as int, q as int, r as int, dy as int, s as int, k as int),
        k as int == gradient_channel_val(p as int, q as int, r as int, dy as int, s as int),
{
    proof {
        assert(-3_037_000_500 < dy < 3_037_000_500) by (nonlinear_arith)
            requires
                dy * dy <= s <= 0x7fff_ffff_ffff_ffffi64,
        ;
        lemma_gradient_channel_exists(p as int, q as int, r as int, dy as int, s as int);
        lemma_channel_at_most_zero(p as int, q as int, r as int, dy as int, s as int);
        assert(-10_000_000_000_000 <= q * dy <= 10_000_000_000_000) by (nonlinear_arith)
            requires
                -1000 <= q <= 0,
                -3_037_000_500 < dy < 3_037_000_500,
        ;
    }
    let d: i64 = q * dy;
    let mut k: u8 = 0;
    let mut done: bool = false;
    while k < 255 && !done
        invariant
            channel_coeffs_ok(p as int, q as int, r as int),
            s > 0,
            d == q * dy,
            -10_000_000_000_000 <= d <= 10_000_000_000_000,
            0 <= k <= 255,
            channel_at_most(p as int, q as int, r as int, dy as int, s as int, k as int),
            done ==> !channel_at_most(p as int, q as int, r as int, dy as int, s as int, k + 1),
        decreases 255 - k + (if done {
            0int
        } else {
            1int
        }),
    {
        proof {
            assert(0 <= (k as int + 1) * r <= 25_500) by (nonlinear_arith)
                requires
                    0 <= k < 255,
                    1 <= r <= 100,
            ;
        }
        let l: i64 = (k as i64 + 1) * r - p;
        if sqrt_le_exec(l, s, d) {
            k = k + 1;
        } else {
            done = true;
        }
    }
    proof {
        lemma_gradient_channel_unique(p as int, q as int, r as int, dy as int, s as int, k as int);
    }
    k
}

/// A color, stored as its three encoded channel values: each the floor of a
/// color component in `[0, 1]` scaled by 255.
#[derive(Clone, Copy, Debug, PartialEq, Eq, Structural)]
pub struct Color {
    pub r: u8,
    pub g: u8,
    pub b: u8,
}

/// The decimal digits of `n` as ASCII bytes (for `n < 0`, of its last digit
/// only; the library only uses nonnegative arguments).
pub open spec fn dec_digits(n: int) -> Seq<u8>
    decreases n,
{
    if n < 10 {
        seq![(48 + n) as u8]
    } else {
        dec_digits(n / 10).push((48 + n % 10) as u8)
    }
}

/// The encoded pixel line: three decimal channel values separated by single
/// spaces and closed by a newline.
pub open spec fn pixel_line(r: int, g: int, b: int) -> Seq<u8> {
    dec_digits(r) + seq![32u8] + dec_digits(g) + seq![32u8] + dec_digits(b) + seq![10u8]
}

/// Appends the decimal digits of a nonnegative integer to a byte buffer.
pub fn push_decimal(out: &mut Vec<u8>, n: i64)
    requires
        n >= 0,
    ensures
        final(out)@ == old(out)@ + dec_digits(n as int),
    decreases n,
{
    if n < 10 {
        out.push(48 + n as u8);
        proof {
            assert(out@ =~= old(out)@ + dec_digits(n as int));
        }
    } else {
        push_decimal(out, n / 10);
        out.push(48 + (n % 10) as u8);
        proof {
            assert(out@ =~= old(out)@ + dec_digits(n as int));
        }
    }
}

impl Color {
    /// Appends the pixel line of this color to a byte buffer.
    pub fn write(self, out: &mut Vec<u8>)
        ensures
            final(out)@ == old(out)@ + pixel_line(self.r as int, self.g as int, self.b as int),
    {
        push_decimal(out, self.r as i64);
        out.push(32);
        push_decimal(out, self.g as i64);
        out.push(32);
        push_decimal(out, self.b as i64);
        out.push(10);
        proof {
            assert(out@ =~= old(out)@ + pixel_line(
                self.r as int,
                self.g as int,
                self.b as int,
            ));
        }
    }
}

} // verus!
