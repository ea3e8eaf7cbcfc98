//! Fixed-point scalars.
//!
//! Every length, coordinate, coefficient and colour channel of the ray caster
//! is an `i64` that counts millionths: the integer `raw` stands for the number
//! `raw / ONE`. Sums and differences of such numbers are exact; products and
//! quotients are rounded toward zero, so that negating an operand negates the
//! result. The specification functions of this module work on unbounded
//! integers; the executable functions compute the same values in `i128` and
//! say which operands they accept.

use vstd::prelude::*;

verus! {

/// The raw value of the number one: the scale of every fixed-point scalar.
pub const ONE: i64 = 1_000_000;

/// Largest magnitude of any scalar that describes a scene (a coordinate of a
/// centre or a corner, a radius, a coefficient, a colour channel): one
/// thousand, as a raw value. A sphere may thus reach as far as two thousand
/// from the origin along an axis.
pub const SCENE_MAX: i64 = 1_000_000_000;

/// Largest magnitude of a coordinate of a point that a ray can meet when it
/// starts within `SCENE_MAX`: such a ray meets nothing farther than thirteen
/// thousand from its origin along any axis.
pub const POINT_MAX: i64 = 14_000_000_000;

/// Distance by which a shadow ray's origin is lifted off the surface, along
/// the unit normal: one ten-thousandth. That clears the surface where
/// rounding has left the point found within as much of it. What the rounding
/// of a ray's direction takes from a point grows with the square of its
/// distance: on a sphere of radius one it passes this offset some ten units
/// from the ray's origin, and from there on such a sphere can shadow points
/// of its own lit side.
pub const SHADOW_BIAS: i64 = 100;

/// Largest magnitude of a coordinate of a ray's origin: a point that a ray
/// from within the scene has met, lifted by `SHADOW_BIAS`, is within it.
pub const ORIGIN_MAX: i64 = 14_000_000_100;

/// A distance that no ray reaches: whatever a ray with its origin within
/// `ORIGIN_MAX` meets in a valid scene, it meets nearer than this.
pub const DISTANCE_MAX: i64 = 160_000_000_000;

/// Absolute value of an integer.
pub open spec fn abs(a: int) -> int {
    if a < 0 {
        -a
    } else {
        a
    }
}

/// Quotient of `a` by a positive `b`, rounded toward zero.
pub open spec fn trunc_div(a: int, b: int) -> int
    recommends
        b > 0,
{
    if a >= 0 {
        a / b
    } else {
        -((-a) / b)
    }
}

/// Product of two fixed-point scalars.
pub open spec fn fx_mul(a: int, b: int) -> int {
    trunc_div(a * b, ONE as int)
}

/// Quotient of two fixed-point scalars, for a positive divisor.
pub open spec fn fx_div(a: int, b: int) -> int
    recommends
        b > 0,
{
    trunc_div(a * ONE, b)
}

/// `x` limited to the range from `lo` to `hi`.
pub open spec fn clamp(x: int, lo: int, hi: int) -> int
    recommends
        lo <= hi,
{
    if x < lo {
        lo
    } else if x > hi {
        hi
    } else {
        x
    }
}

/// `r` is the integer square root of `n`: the largest integer whose square
/// does not exceed `n`.
pub open spec fn is_floor_sqrt(n: int, r: int) -> bool {
    0 <= r && r * r <= n && n < (r + 1) * (r + 1)
}

/// The integer square root of a non-negative `n`.
pub open spec fn floor_sqrt(n: int) -> int
    recommends
        n >= 0,
{
    choose|r: int| is_floor_sqrt(n, r)
}

/// `x` raised to the power `n` in fixed-point arithmetic: `n` successive
/// rounded products, starting from one.
pub open spec fn fx_pow(x: int, n: nat) -> int
    decreases n,
{
    if n == 0 {
        ONE as int
    } else {
        fx_mul(fx_pow(x, (n - 1) as nat), x)
    }
}

/// The product of two bounded integers is bounded by the product of the bounds.
pub proof fn lemma_mul_bound(a: int, b: int, ma: int, mb: int)
    by (nonlinear_arith)
    requires
        abs(a) <= ma,
        abs(b) <= mb,
    ensures
        abs(a * b) <= ma * mb,
        -(ma * mb) <= a * b <= ma * mb,
{
}

/// The square of a bounded integer lies between zero and the square of the
/// bound.
pub proof fn lemma_square_bound(a: int, m: int)
    by (nonlinear_arith)
    requires
        abs(a) <= m,
    ensures
        0 <= a * a <= m * m,
{
}

/// The magnitude of a product is the product of the magnitudes.
pub proof fn lemma_abs_mul(a: int, b: int)
    by (nonlinear_arith)
    ensures
        abs(a * b) == abs(a) * abs(b),
{
}

/// A dividend is smaller in magnitude than its rounded quotient, plus one,
/// times the divisor.
pub proof fn lemma_trunc_div_undone(a: int, b: int)
    requires
        b > 0,
    ensures
        abs(trunc_div(a, b)) * b <= abs(a) < (abs(trunc_div(a, b)) + 1) * b,
{
    let p: int = abs(a);
    lemma_trunc_div_neg(a, b);
    assert(abs(trunc_div(a, b)) == p / b) by {
        assert(p / b >= 0) by (nonlinear_arith)
            requires
                p >= 0,
                b > 0,
        ;
    }
    assert((p / b) * b <= p < (p / b + 1) * b) by (nonlinear_arith)
        requires
            p >= 0,
            b > 0,
    ;
}

/// What rounding a quotient toward zero leaves over: the quotient has the
/// sign of the dividend, and so has the remainder, which is shorter than the
/// divisor.
pub proof fn lemma_trunc_div_remainder(a: int, b: int)
    requires
        b > 0,
    ensures
        a >= 0 ==> trunc_div(a, b) >= 0 && 0 <= a - trunc_div(a, b) * b < b,
        a <= 0 ==> trunc_div(a, b) <= 0 && -b < a - trunc_div(a, b) * b <= 0,
{
    let p: int = abs(a);
    let q: int = p / b;
    assert(q >= 0 && q * b <= p < q * b + b) by (nonlinear_arith)
        requires
            q == p / b,
            p >= 0,
            b > 0,
    ;
    if a < 0 {
        assert(trunc_div(a, b) == -q);
        assert((-q) * b == -(q * b)) by (nonlinear_arith);
    }
}

/// A rounded quotient is no larger in magnitude than its dividend permits:
/// if `|a| <= m * b` then `|a / b| <= m`. It has the sign of the dividend.
pub proof fn lemma_trunc_div_bound(a: int, b: int, m: int)
    requires
        b > 0,
        m >= 0,
        abs(a) <= m * b,
    ensures
        abs(trunc_div(a, b)) <= m,
        a >= 0 ==> trunc_div(a, b) >= 0,
        a <= 0 ==> trunc_div(a, b) <= 0,
{
    let p: int = abs(a);
    assert(0 <= p / b <= m) by (nonlinear_arith)
        requires
            b > 0,
            m >= 0,
            0 <= p <= m * b,
    ;
}

/// Dividing by a positive integer does not increase the magnitude.
pub proof fn lemma_trunc_div_shrinks(a: int, b: int)
    requires
        b > 0,
    ensures
        abs(trunc_div(a, b)) <= abs(a),
{
    let p: int = abs(a);
    assert(p <= p * b) by (nonlinear_arith)
        requires
            p >= 0,
            b >= 1,
    ;
    lemma_trunc_div_bound(a, b, p);
}

/// Rounding toward zero commutes with negation.
pub proof fn lemma_trunc_div_neg(a: int, b: int)
    requires
        b > 0,
    ensures
        trunc_div(-a, b) == -trunc_div(a, b),
{
    if a == 0 {
        assert(0int / b == 0) by (nonlinear_arith)
            requires
                b > 0,
        ;
    }
}

/// Rounded quotients keep the order of their dividends.
pub proof fn lemma_trunc_div_monotone(a1: int, a2: int, b: int)
    requires
        b > 0,
        a1 <= a2,
    ensures
        trunc_div(a1, b) <= trunc_div(a2, b),
{
    if a1 >= 0 {
        assert(a1 / b <= a2 / b) by (nonlinear_arith)
            requires
                b > 0,
                0 <= a1 <= a2,
        ;
    } else if a2 >= 0 {
        let p: int = -a1;
        assert(p / b >= 0 && a2 / b >= 0) by (nonlinear_arith)
            requires
                b > 0,
                p > 0,
                a2 >= 0,
        ;
    } else {
        let n1: int = -a1;
        let n2: int = -a2;
        assert(n2 / b <= n1 / b) by (nonlinear_arith)
            requires
                b > 0,
                0 < n2 <= n1,
        ;
    }
}

/// An exact multiple divides without rounding.
pub proof fn lemma_trunc_div_exact(q: int, b: int)
    requires
        b > 0,
    ensures
        trunc_div(q * b, b) == q,
{
    if q >= 0 {
        assert(q * b >= 0 && (q * b) / b == q) by (nonlinear_arith)
            requires
                b > 0,
                q >= 0,
        ;
    } else {
        let p: int = -q;
        assert(q * b < 0 && -(q * b) == p * b && (p * b) / b == p) by (nonlinear_arith)
            requires
                b > 0,
                p > 0,
                p == -q,
        ;
    }
}

/// At most one integer is the integer square root of `n`.
pub proof fn lemma_floor_sqrt_unique(n: int, r1: int, r2: int)
    requires
        is_floor_sqrt(n, r1),
        is_floor_sqrt(n, r2),
    ensures
        r1 == r2,
{
    if r1 < r2 {
        assert((r1 + 1) * (r1 + 1) <= r2 * r2) by (nonlinear_arith)
            requires
                0 <= r1,
                r1 + 1 <= r2,
        ;
    } else if r2 < r1 {
        assert((r2 + 1) * (r2 + 1) <= r1 * r1) by (nonlinear_arith)
            requires
                0 <= r2,
                r2 + 1 <= r1,
        ;
    }
}

/// Every non-negative integer has an integer square root, and `floor_sqrt`
/// names it.
pub proof fn lemma_floor_sqrt(n: int)
    requires
        n >= 0,
    ensures
        is_floor_sqrt(n, floor_sqrt(n)),
    decreases n,
{
    if n == 0 {
        assert(is_floor_sqrt(0, 0));
    } else {
        lemma_floor_sqrt(n - 1);
        let r: int = floor_sqrt(n - 1);
        if (r + 1) * (r + 1) <= n {
            assert(n < (r + 2) * (r + 2)) by (nonlinear_arith)
                requires
                    0 <= r,
                    n - 1 < (r + 1) * (r + 1),
            ;
            assert(is_floor_sqrt(n, r + 1));
        } else {
            assert(is_floor_sqrt(n, r));
        }
    }
}

/// The integer square root of a perfect square is its root.
pub proof fn lemma_floor_sqrt_square(r: int)
    requires
        r >= 0,
    ensures
        floor_sqrt(r * r) == r,
{
    assert(is_floor_sqrt(r * r, r)) by (nonlinear_arith)
        requires
            r >= 0,
    ;
    lemma_floor_sqrt(r * r);
    lemma_floor_sqrt_unique(r * r, r, floor_sqrt(r * r));
}

/// The integer square root of `n`.
pub fn isqrt(n: u128) -> (r: u64)
    ensures
        r == floor_sqrt(n as int),
        is_floor_sqrt(n as int, r as int),
{
    let mut lo: u128 = 0;
    let mut hi: u128 = 0x1_0000_0000_0000_0000;
    assert(n < hi * hi) by (nonlinear_arith)
        requires
            hi == 0x1_0000_0000_0000_0000,
            n <= u128::MAX,
    ;
    while hi - lo > 1
        invariant
            lo < hi <= 0x1_0000_0000_0000_0000,
            lo * lo <= n,
            n < hi * hi,
        decreases hi - lo,
    {
        let mid: u128 = lo + (hi - lo) / 2;
        assert(mid * mid <= u128::MAX) by (nonlinear_arith)
            requires
                mid < 0x1_0000_0000_0000_0000,
        ;
        if mid * mid <= n {
            lo = mid;
        } else {
            hi = mid;
        }
    }
    proof {
        assert(is_floor_sqrt(n as int, lo as int));
        lemma_floor_sqrt(n as int);
        lemma_floor_sqrt_unique(n as int, lo as int, floor_sqrt(n as int));
    }
    lo as u64
}

/// Product of two fixed-point scalars, where it is representable.
pub fn mul_fx(a: i64, b: i64) -> (p: i64)
    requires
        i64::MIN <= fx_mul(a as int, b as int) <= i64::MAX,
    ensures
        p == fx_mul(a as int, b as int),
{
    proof {
        lemma_mul_bound(a as int, b as int, 0x8000_0000_0000_0000, 0x8000_0000_0000_0000);
    }
    let wide: i128 = (a as i128) * (b as i128);
    (wide / (ONE as i128)) as i64
}

/// `x` raised to the power `n` in fixed-point arithmetic, for a base between
/// zero and one.
pub fn pow_fx(x: i64, n: u32) -> (p: i64)
    requires
        0 <= x <= ONE,
    ensures
        p == fx_pow(x as int, n as nat),
        0 <= p <= ONE,
{
    if x == ONE {
        proof {
            lemma_fx_pow_of_one(n as nat);
        }
        return ONE;
    }
    // below one, every product is smaller than the last until zero is reached
    let mut acc: i64 = ONE;
    let mut i: u32 = 0;
    while i < n
        invariant
            i <= n,
            0 <= x <= ONE,
            0 <= acc <= ONE,
            acc == fx_pow(x as int, i as nat),
        decreases n - i,
    {
        if acc == 0 {
            proof {
                lemma_fx_pow_zero_stays(x as int, i as nat, n as nat);
            }
            return 0;
        }
        proof {
            lemma_mul_bound(acc as int, x as int, ONE as int, ONE as int);
            lemma_trunc_div_bound(acc * x, ONE as int, ONE as int);
        }
        acc = mul_fx(acc, x);
        i = i + 1;
    }
    acc
}

/// Every power of one is one.
pub proof fn lemma_fx_pow_of_one(n: nat)
    ensures
        fx_pow(ONE as int, n) == ONE,
    decreases n,
{
    if n > 0 {
        lemma_fx_pow_of_one((n - 1) as nat);
        lemma_trunc_div_exact(ONE as int, ONE as int);
    }
}

/// Once a power has been rounded to zero, every higher power is zero.
pub proof fn lemma_fx_pow_zero_stays(x: int, i: nat, n: nat)
    requires
        i <= n,
        fx_pow(x, i) == 0,
    ensures
        fx_pow(x, n) == 0,
    decreases n - i,
{
    if i < n {
        assert(fx_pow(x, i + 1) == fx_mul(fx_pow(x, i), x));
        assert(0 * x == 0);
        lemma_fx_pow_zero_stays(x, i + 1, n);
    }
}

/// A power of a base between zero and one lies between zero and one.
pub proof fn lemma_fx_pow_unit(x: int, n: nat)
    requires
        0 <= x <= ONE,
    ensures
        0 <= fx_pow(x, n) <= ONE,
    decreases n,
{
    if n > 0 {
        lemma_fx_pow_unit(x, (n - 1) as nat);
        let q: int = fx_pow(x, (n - 1) as nat);
        lemma_mul_bound(q, x, ONE as int, ONE as int);
        assert(q * x >= 0) by (nonlinear_arith)
            requires
                q >= 0,
                x >= 0,
        ;
        lemma_trunc_div_bound(q * x, ONE as int, ONE as int);
    }
}

} // verus!
