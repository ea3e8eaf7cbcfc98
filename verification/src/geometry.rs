//! Vectors of three fixed-point components.
//!
//! `V3` is the mathematical vector, with unbounded integer components; every
//! contract of the library is stated over it. `Vec3` is the value that runs:
//! three `i64`, whose view `@` is a `V3`. Each executable operation says which
//! operands it accepts and returns the vector that the corresponding `V3`
//! operation defines.

use vstd::prelude::*;
use crate::fixed::{
    abs, floor_sqrt, fx_div, fx_mul, isqrt, lemma_mul_bound, lemma_square_bound,
    lemma_trunc_div_bound, trunc_div, ONE,
};

verus! {

/// An order of the three coordinate axes: `Yzx` names the frame of reference
/// whose first axis is the old second one, whose second axis is the old
/// third one and whose third axis is the old first one.
pub enum AxisOrder {
    Xyz,
    Xzy,
    Yxz,
    Yzx,
    Zxy,
    Zyx,
}

/// Largest component magnitude of a vector that is stretched before it is
/// normalised: two to the power 31, less one.
pub const SHORT_MAX: i64 = 0x7fff_ffff;

/// The factor by which a short vector is stretched: two to the power 32.
pub const STRETCH: i64 = 0x1_0000_0000;

/// A point or offset in the plane, with integer coordinates.
pub struct V2 {
    pub x: int,
    pub y: int,
}

/// A vector of three integers: the mathematical model of `Vec3`.
pub struct V3 {
    pub x: int,
    pub y: int,
    pub z: int,
}

impl V2 {
    /// The same point with its two coordinates exchanged.
    pub open spec fn swapped(self) -> V2 {
        V2 { x: self.y, y: self.x }
    }

    /// Difference of two points.
    pub open spec fn minus(self, o: V2) -> V2 {
        V2 { x: self.x - o.x, y: self.y - o.y }
    }

    /// The planar cross product `self.x * o.y - self.y * o.x`: positive when
    /// `o` lies counter-clockwise of `self` as seen from the origin.
    pub open spec fn cross(self, o: V2) -> int {
        self.x * o.y - self.y * o.x
    }
}

impl V3 {
    /// The vector with the given components.
    pub open spec fn new(x: int, y: int, z: int) -> V3 {
        V3 { x, y, z }
    }

    /// The zero vector.
    pub open spec fn zero() -> V3 {
        V3 { x: 0, y: 0, z: 0 }
    }

    /// Sum of two vectors.
    pub open spec fn plus(self, o: V3) -> V3 {
        V3 { x: self.x + o.x, y: self.y + o.y, z: self.z + o.z }
    }

    /// Difference of two vectors.
    pub open spec fn minus(self, o: V3) -> V3 {
        V3 { x: self.x - o.x, y: self.y - o.y, z: self.z - o.z }
    }

    /// The opposite vector.
    pub open spec fn negated(self) -> V3 {
        V3 { x: -self.x, y: -self.y, z: -self.z }
    }

    /// Product with the fixed-point scalar `k`, each component rounded toward
    /// zero.
    pub open spec fn scaled(self, k: int) -> V3 {
        V3 { x: fx_mul(self.x, k), y: fx_mul(self.y, k), z: fx_mul(self.z, k) }
    }

    /// Quotient by the positive fixed-point scalar `k`, each component rounded
    /// toward zero.
    pub open spec fn divided(self, k: int) -> V3
        recommends
            k > 0,
    {
        V3 { x: fx_div(self.x, k), y: fx_div(self.y, k), z: fx_div(self.z, k) }
    }

    /// Component-wise fixed-point product.
    pub open spec fn component_mul(self, o: V3) -> V3 {
        V3 { x: fx_mul(self.x, o.x), y: fx_mul(self.y, o.y), z: fx_mul(self.z, o.z) }
    }

    /// Exact dot product of the raw components. For two fixed-point vectors
    /// it carries the scale `ONE * ONE`.
    pub open spec fn dot(self, o: V3) -> int {
        self.x * o.x + self.y * o.y + self.z * o.z
    }

    /// Sum of the magnitudes of the three products that make up the dot
    /// product: what a machine integer must hold to compute it.
    pub open spec fn dot_magnitude(self, o: V3) -> int {
        abs(self.x * o.x) + abs(self.y * o.y) + abs(self.z * o.z)
    }

    /// Dot product of two fixed-point vectors as a fixed-point scalar.
    pub open spec fn fx_dot(self, o: V3) -> int {
        trunc_div(self.dot(o), ONE as int)
    }

    /// Exact cross product of the raw components.
    pub open spec fn cross(self, o: V3) -> V3 {
        V3 {
            x: self.y * o.z - self.z * o.y,
            y: self.z * o.x - self.x * o.z,
            z: self.x * o.y - self.y * o.x,
        }
    }

    /// Square of the Euclidean length, exact.
    pub open spec fn norm_sq(self) -> int {
        self.dot(self)
    }

    /// The same direction with room for rounding: a vector with no component
    /// beyond `SHORT_MAX` is lengthened by the factor `STRETCH`, and any other
    /// is left as it is. Either way the result is at least `SHORT_MAX` units of
    /// resolution long, unless it is zero.
    pub open spec fn stretched(self) -> V3 {
        if self.within(SHORT_MAX as int) {
            V3 { x: self.x * STRETCH, y: self.y * STRETCH, z: self.z * STRETCH }
        } else {
            self
        }
    }

    /// The vector scaled to length one: each component of the stretched
    /// vector times `ONE`, divided by the integer square root of its squared
    /// length and rounded toward zero. The zero vector has no direction and
    /// is left as it is.
    pub open spec fn normalized(self) -> V3 {
        let long = self.stretched();
        let len = floor_sqrt(long.norm_sq());
        if len == 0 {
            V3::zero()
        } else {
            long.divided(len)
        }
    }

    /// The length of the vector is one, up to rounding: the square of its
    /// length lies between that of `ONE - 2` and that of `ONE + 1`.
    pub open spec fn is_unit(self) -> bool {
        ONE * ONE - 4 * ONE <= self.norm_sq() <= ONE * ONE + 1000
    }

    /// The same vector in the frame of reference whose axes are the old ones
    /// in the order `order`.
    pub open spec fn reordered(self, order: AxisOrder) -> V3 {
        match order {
            AxisOrder::Xyz => self,
            AxisOrder::Xzy => V3 { x: self.x, y: self.z, z: self.y },
            AxisOrder::Yxz => V3 { x: self.y, y: self.x, z: self.z },
            AxisOrder::Yzx => V3 { x: self.y, y: self.z, z: self.x },
            AxisOrder::Zxy => V3 { x: self.z, y: self.x, z: self.y },
            AxisOrder::Zyx => V3 { x: self.z, y: self.y, z: self.x },
        }
    }

    /// One component is strictly longer than the two others.
    pub open spec fn has_dominant_axis(self) -> bool {
        ||| abs(self.x) > abs(self.y) && abs(self.x) > abs(self.z)
        ||| abs(self.y) > abs(self.x) && abs(self.y) > abs(self.z)
        ||| abs(self.z) > abs(self.x) && abs(self.z) > abs(self.y)
    }

    /// No component is below zero.
    pub open spec fn nonnegative(self) -> bool {
        self.x >= 0 && self.y >= 0 && self.z >= 0
    }

    /// No component exceeds the corresponding one of `o`.
    pub open spec fn at_most(self, o: V3) -> bool {
        self.x <= o.x && self.y <= o.y && self.z <= o.z
    }

    /// Every component has magnitude at most `m`.
    pub open spec fn within(self, m: int) -> bool {
        abs(self.x) <= m && abs(self.y) <= m && abs(self.z) <= m
    }

    /// Every component fits in an `i64` together with its negation.
    pub open spec fn fits(self) -> bool {
        self.within(i64::MAX as int)
    }

    /// Index of the component of greatest magnitude, the first one among
    /// equals.
    pub open spec fn dominant_axis(self) -> int {
        if abs(self.x) >= abs(self.y) && abs(self.x) >= abs(self.z) {
            0
        } else if abs(self.y) >= abs(self.z) {
            1
        } else {
            2
        }
    }

    /// The two components that remain when component `axis` is removed, in
    /// their order.
    pub open spec fn drop_axis(self, axis: int) -> V2 {
        if axis == 0 {
            V2 { x: self.y, y: self.z }
        } else if axis == 1 {
            V2 { x: self.x, y: self.z }
        } else {
            V2 { x: self.x, y: self.y }
        }
    }
}

/// The dot product of two bounded vectors is bounded.
pub proof fn lemma_dot_bound(a: V3, b: V3, ma: int, mb: int)
    requires
        a.within(ma),
        b.within(mb),
    ensures
        abs(a.dot(b)) <= 3 * (ma * mb),
        a.dot_magnitude(b) <= 3 * (ma * mb),
{
    lemma_mul_bound(a.x, b.x, ma, mb);
    lemma_mul_bound(a.y, b.y, ma, mb);
    lemma_mul_bound(a.z, b.z, ma, mb);
}

/// Each component of the cross product of two bounded vectors is bounded.
pub proof fn lemma_cross_bound(a: V3, b: V3, ma: int, mb: int)
    requires
        a.within(ma),
        b.within(mb),
    ensures
        a.cross(b).within(2 * (ma * mb)),
{
    lemma_mul_bound(a.y, b.z, ma, mb);
    lemma_mul_bound(a.z, b.y, ma, mb);
    lemma_mul_bound(a.z, b.x, ma, mb);
    lemma_mul_bound(a.x, b.z, ma, mb);
    lemma_mul_bound(a.x, b.y, ma, mb);
    lemma_mul_bound(a.y, b.x, ma, mb);
}

/// No component of a vector is longer than the integer square root of its
/// squared length.
pub proof fn lemma_component_below_length(v: V3)
    ensures
        v.norm_sq() >= 0,
        v.within(floor_sqrt(v.norm_sq())),
{
    let n: int = v.norm_sq();
    assert(n >= 0 && n >= v.x * v.x && n >= v.y * v.y && n >= v.z * v.z) by (nonlinear_arith)
        requires
            n == v.x * v.x + v.y * v.y + v.z * v.z,
    ;
    crate::fixed::lemma_floor_sqrt(n);
    let r: int = floor_sqrt(n);
    lemma_square_root_dominates(v.x, n, r);
    lemma_square_root_dominates(v.y, n, r);
    lemma_square_root_dominates(v.z, n, r);
}

/// If `c * c <= n < (r + 1) * (r + 1)` then `|c| <= r`.
proof fn lemma_square_root_dominates(c: int, n: int, r: int)
    by (nonlinear_arith)
    requires
        0 <= r,
        c * c <= n,
        n < (r + 1) * (r + 1),
    ensures
        abs(c) <= r,
{
}

/// A normalised vector has no component beyond one.
pub proof fn lemma_normalized_within_one(v: V3)
    ensures
        v.normalized().within(ONE as int),
{
    let long: V3 = v.stretched();
    lemma_component_below_length(long);
    let len: int = floor_sqrt(long.norm_sq());
    crate::fixed::lemma_floor_sqrt(long.norm_sq());
    if len != 0 {
        lemma_mul_bound(long.x, ONE as int, len, ONE as int);
        lemma_mul_bound(long.y, ONE as int, len, ONE as int);
        lemma_mul_bound(long.z, ONE as int, len, ONE as int);
        assert(len * ONE == ONE * len) by (nonlinear_arith);
        lemma_trunc_div_bound(long.x * ONE, len, ONE as int);
        lemma_trunc_div_bound(long.y * ONE, len, ONE as int);
        lemma_trunc_div_bound(long.z * ONE, len, ONE as int);
    }
}

/// A stretched vector that is not zero is at least `SHORT_MAX` units of
/// resolution long.
pub proof fn lemma_stretched_is_long(v: V3)
    requires
        v != V3::zero(),
    ensures
        floor_sqrt(v.stretched().norm_sq()) >= SHORT_MAX,
{
    let long: V3 = v.stretched();
    let n: int = long.norm_sq();
    lemma_component_below_length(long);
    crate::fixed::lemma_floor_sqrt(n);
    let len: int = floor_sqrt(n);
    if v.within(SHORT_MAX as int) {
        // some component of `v` is at least one, so one of `long` is at least
        // `STRETCH`
        assert(abs(long.x) >= STRETCH || abs(long.y) >= STRETCH || abs(long.z) >= STRETCH)
            by (nonlinear_arith)
            requires
                long.x == v.x * STRETCH,
                long.y == v.y * STRETCH,
                long.z == v.z * STRETCH,
                v.x != 0 || v.y != 0 || v.z != 0,
        ;
    }
}

/// The square of a sum of three numbers is at most three times the sum of
/// their squares.
proof fn lemma_sum_squared(a: int, b: int, c: int)
    by (nonlinear_arith)
    ensures
        (a + b + c) * (a + b + c) <= 3 * (a * a + b * b + c * c),
{
}

/// What rounding a quotient toward zero does to its square: for
/// `m = |w * ONE| / len`, the square of `m * len` does not exceed that of
/// `w * ONE`, which stays below the square of `(m + 1) * len`.
proof fn lemma_quotient_squares(w: int, len: int)
    requires
        len > 0,
    ensures
        ({
            let m = abs(trunc_div(w * ONE, len));
            &&& (m * m) * (len * len) <= (ONE * ONE) * (w * w)
            &&& (ONE * ONE) * (w * w) < ((m + 1) * (m + 1)) * (len * len)
        }),
{
    let a: int = abs(w * ONE);
    let m: int = abs(trunc_div(w * ONE, len));
    crate::fixed::lemma_trunc_div_neg(w * ONE, len);
    assert(m == a / len);
    assert(0 <= m && m * len <= a < (m + 1) * len) by (nonlinear_arith)
        requires
            m == a / len,
            a >= 0,
            len > 0,
    ;
    assert(a * a == (ONE * ONE) * (w * w)) by (nonlinear_arith)
        requires
            a == w * ONE || a == -(w * ONE),
    ;
    assert((m * len) * (m * len) <= a * a && a * a < ((m + 1) * len) * ((m + 1) * len))
        by (nonlinear_arith)
        requires
            0 <= m * len <= a,
            a < (m + 1) * len,
    ;
    assert((m * len) * (m * len) == (m * m) * (len * len) && ((m + 1) * len) * ((m + 1) * len) == (
    (m + 1) * (m + 1)) * (len * len)) by (nonlinear_arith);
}

/// A vector that is not zero has, once normalised, the length one, up to
/// rounding.
pub proof fn lemma_normalized_is_unit(v: V3)
    requires
        v != V3::zero(),
    ensures
        v.normalized().is_unit(),
        v.normalized() != V3::zero(),
{
    let long: V3 = v.stretched();
    let total: int = long.norm_sq();
    lemma_stretched_is_long(v);
    lemma_component_below_length(long);
    crate::fixed::lemma_floor_sqrt(total);
    let len: int = floor_sqrt(total);
    let n: V3 = v.normalized();
    assert(n == long.divided(len));
    let (mx, my, mz) = (abs(n.x), abs(n.y), abs(n.z));
    lemma_quotient_squares(long.x, len);
    lemma_quotient_squares(long.y, len);
    lemma_quotient_squares(long.z, len);
    let s: int = mx * mx + my * my + mz * mz;
    assert(n.norm_sq() == s) by (nonlinear_arith)
        requires
            n.norm_sq() == n.x * n.x + n.y * n.y + n.z * n.z,
            mx == n.x || mx == -n.x,
            my == n.y || my == -n.y,
            mz == n.z || mz == -n.z,
            s == mx * mx + my * my + mz * mz,
    ;
    let one2: int = ONE * ONE;
    let len2: int = len * len;
    assert(len2 > 0) by (nonlinear_arith)
        requires
            len2 == len * len,
            len > 0,
    ;
    // the sum of the three squares, from above and from below
    let up: int = (mx + 1) * (mx + 1) + (my + 1) * (my + 1) + (mz + 1) * (mz + 1);
    assert(s * len2 <= one2 * total && one2 * total < up * len2) by (nonlinear_arith)
        requires
            (mx * mx) * len2 <= one2 * (long.x * long.x),
            (my * my) * len2 <= one2 * (long.y * long.y),
            (mz * mz) * len2 <= one2 * (long.z * long.z),
            one2 * (long.x * long.x) < ((mx + 1) * (mx + 1)) * len2,
            one2 * (long.y * long.y) < ((my + 1) * (my + 1)) * len2,
            one2 * (long.z * long.z) < ((mz + 1) * (mz + 1)) * len2,
            total == long.x * long.x + long.y * long.y + long.z * long.z,
            s == mx * mx + my * my + mz * mz,
            up == (mx + 1) * (mx + 1) + (my + 1) * (my + 1) + (mz + 1) * (mz + 1),
    ;
    // not too long: s * len^2 <= ONE^2 * total < ONE^2 * (len + 1)^2
    assert(s <= one2 + 1000) by (nonlinear_arith)
        requires
            s * len2 <= one2 * total,
            total < (len + 1) * (len + 1),
            len2 == len * len,
            len >= 0x7fff_ffff,
            one2 == 1_000_000_000_000,
    ;
    // not too short: ONE^2 * len^2 <= ONE^2 * total < up * len^2
    assert(one2 < up) by (nonlinear_arith)
        requires
            one2 * total < up * len2,
            len2 <= total,
            len2 > 0,
            one2 > 0,
    ;
    lemma_sum_squared(mx, my, mz);
    let sum: int = mx + my + mz;
    assert(up == s + 2 * sum + 3) by (nonlinear_arith)
        requires
            up == (mx + 1) * (mx + 1) + (my + 1) * (my + 1) + (mz + 1) * (mz + 1),
            s == mx * mx + my * my + mz * mz,
            sum == mx + my + mz,
    ;
    assert(sum <= 1_732_052) by (nonlinear_arith)
        requires
            sum * sum <= 3 * s,
            s <= 1_000_000_001_000,
            sum >= 0,
    ;
    assert(V3::zero().norm_sq() == 0);
}

/// A vector of three fixed-point components.
#[derive(Clone, Copy, Debug, PartialEq, Eq)]
pub struct Vec3 {
    pub x: i64,
    pub y: i64,
    pub z: i64,
}

/// A pair of fixed-point components: a vector with one axis removed.
#[derive(Clone, Copy, Debug, PartialEq, Eq)]
pub struct Vec2 {
    pub x: i64,
    pub y: i64,
}

impl View for Vec3 {
    type V = V3;

    open spec fn view(&self) -> V3 {
        V3 { x: self.x as int, y: self.y as int, z: self.z as int }
    }
}

impl View for Vec2 {
    type V = V2;

    open spec fn view(&self) -> V2 {
        V2 { x: self.x as int, y: self.y as int }
    }
}

impl Vec2 {
    /// Difference of two pairs.
    pub fn minus(&self, o: &Vec2) -> (v: Vec2)
        requires
            i64::MIN <= self.x - o.x <= i64::MAX,
            i64::MIN <= self.y - o.y <= i64::MAX,
        ensures
            v@ == self@.minus(o@),
    {
        Vec2 { x: self.x - o.x, y: self.y - o.y }
    }
}

impl Vec3 {
    /// The vector with the given components.
    pub fn new(x: i64, y: i64, z: i64) -> (v: Vec3)
        ensures
            v == (Vec3 { x, y, z }),
    {
        Vec3 { x, y, z }
    }

    /// The zero vector.
    pub fn zeros() -> (v: Vec3)
        ensures
            v@ == V3::zero(),
    {
        Vec3 { x: 0, y: 0, z: 0 }
    }

    /// Sum of two vectors.
    pub fn plus(&self, o: &Vec3) -> (v: Vec3)
        requires
            self@.plus(o@).fits(),
        ensures
            v@ == self@.plus(o@),
    {
        Vec3 { x: self.x + o.x, y: self.y + o.y, z: self.z + o.z }
    }

    /// Difference of two vectors.
    pub fn minus(&self, o: &Vec3) -> (v: Vec3)
        requires
            self@.minus(o@).fits(),
        ensures
            v@ == self@.minus(o@),
    {
        Vec3 { x: self.x - o.x, y: self.y - o.y, z: self.z - o.z }
    }

    /// The opposite vector.
    pub fn negated(&self) -> (v: Vec3)
        requires
            self@.fits(),
        ensures
            v@ == self@.negated(),
    {
        Vec3 { x: -self.x, y: -self.y, z: -self.z }
    }

    /// Product with the fixed-point scalar `k`.
    pub fn scaled(&self, k: i64) -> (v: Vec3)
        requires
            self@.scaled(k as int).fits(),
        ensures
            v@ == self@.scaled(k as int),
    {
        Vec3 {
            x: crate::fixed::mul_fx(self.x, k),
            y: crate::fixed::mul_fx(self.y, k),
            z: crate::fixed::mul_fx(self.z, k),
        }
    }

    /// Quotient by the positive fixed-point scalar `k`.
    pub fn divided(&self, k: i64) -> (v: Vec3)
        requires
            k > 0,
            self@.divided(k as int).fits(),
        ensures
            v@ == self@.divided(k as int),
    {
        proof {
            lemma_mul_bound(self.x as int, ONE as int, 0x8000_0000_0000_0000, ONE as int);
            lemma_mul_bound(self.y as int, ONE as int, 0x8000_0000_0000_0000, ONE as int);
            lemma_mul_bound(self.z as int, ONE as int, 0x8000_0000_0000_0000, ONE as int);
        }
        let d: i128 = k as i128;
        let s: i128 = ONE as i128;
        Vec3 {
            x: (((self.x as i128) * s) / d) as i64,
            y: (((self.y as i128) * s) / d) as i64,
            z: (((self.z as i128) * s) / d) as i64,
        }
    }

    /// Component-wise fixed-point product.
    pub fn component_mul(&self, o: &Vec3) -> (v: Vec3)
        requires
            self@.component_mul(o@).fits(),
        ensures
            v@ == self@.component_mul(o@),
    {
        Vec3 {
            x: crate::fixed::mul_fx(self.x, o.x),
            y: crate::fixed::mul_fx(self.y, o.y),
            z: crate::fixed::mul_fx(self.z, o.z),
        }
    }

    /// Exact dot product of the raw components.
    pub fn dot(&self, o: &Vec3) -> (d: i128)
        requires
            self@.dot_magnitude(o@) <= i128::MAX,
        ensures
            d == self@.dot(o@),
    {
        (self.x as i128) * (o.x as i128) + (self.y as i128) * (o.y as i128) + (self.z as i128) * (
        o.z as i128)
    }

    /// Exact cross product of the raw components, where it is representable.
    pub fn cross(&self, o: &Vec3) -> (v: Vec3)
        requires
            self@.fits(),
            o@.fits(),
            self@.cross(o@).fits(),
        ensures
            v@ == self@.cross(o@),
    {
        proof {
            let m: int = i64::MAX as int;
            lemma_mul_bound(self.y as int, o.z as int, m, m);
            lemma_mul_bound(self.z as int, o.y as int, m, m);
            lemma_mul_bound(self.z as int, o.x as int, m, m);
            lemma_mul_bound(self.x as int, o.z as int, m, m);
            lemma_mul_bound(self.x as int, o.y as int, m, m);
            lemma_mul_bound(self.y as int, o.x as int, m, m);
            assert(m * m == 0x3fff_ffff_ffff_ffff_0000_0000_0000_0001) by (nonlinear_arith)
                requires
                    m == 0x7fff_ffff_ffff_ffff,
            ;
        }
        let ax: i128 = self.x as i128;
        let ay: i128 = self.y as i128;
        let az: i128 = self.z as i128;
        let bx: i128 = o.x as i128;
        let by: i128 = o.y as i128;
        let bz: i128 = o.z as i128;
        Vec3 {
            x: (ay * bz - az * by) as i64,
            y: (az * bx - ax * bz) as i64,
            z: (ax * by - ay * bx) as i64,
        }
    }

    /// The vector scaled to length one; the zero vector is returned as it is.
    pub fn normalize(&self) -> (v: Vec3)
        ensures
            v@ == self@.normalized(),
            v@.within(ONE as int),
            self@ != V3::zero() ==> v@.is_unit(),
    {
        let short: bool = -SHORT_MAX <= self.x && self.x <= SHORT_MAX && -SHORT_MAX <= self.y
            && self.y <= SHORT_MAX && -SHORT_MAX <= self.z && self.z <= SHORT_MAX;
        let factor: i128 = if short {
            STRETCH as i128
        } else {
            1
        };
        let ghost long: V3 = self@.stretched();
        proof {
            let top: int = 0x8000_0000_0000_0000;
            if short {
                lemma_mul_bound(self.x as int, factor as int, 0x8000_0000, STRETCH as int);
                lemma_mul_bound(self.y as int, factor as int, 0x8000_0000, STRETCH as int);
                lemma_mul_bound(self.z as int, factor as int, 0x8000_0000, STRETCH as int);
            }
            assert(long.within(top));
            lemma_square_bound(long.x, top);
            lemma_square_bound(long.y, top);
            lemma_square_bound(long.z, top);
            lemma_component_below_length(long);
            lemma_normalized_within_one(self@);
            lemma_mul_bound(long.x, ONE as int, top, ONE as int);
            lemma_mul_bound(long.y, ONE as int, top, ONE as int);
            lemma_mul_bound(long.z, ONE as int, top, ONE as int);
            if self@ != V3::zero() {
                lemma_normalized_is_unit(self@);
            }
        }
        let x: i128 = (self.x as i128) * factor;
        let y: i128 = (self.y as i128) * factor;
        let z: i128 = (self.z as i128) * factor;
        assert(long == V3 { x: x as int, y: y as int, z: z as int });
        let xx: u128 = (x * x) as u128;
        let yy: u128 = (y * y) as u128;
        let zz: u128 = (z * z) as u128;
        let len: u64 = isqrt(xx + yy + zz);
        if len == 0 {
            Vec3 { x: 0, y: 0, z: 0 }
        } else {
            let d: i128 = len as i128;
            let s: i128 = ONE as i128;
            Vec3 { x: ((x * s) / d) as i64, y: ((y * s) / d) as i64, z: ((z * s) / d) as i64 }
        }
    }

    /// Index of the component of greatest magnitude, the first one among
    /// equals.
    pub fn iamax(&self) -> (axis: usize)
        ensures
            axis == self@.dominant_axis(),
            axis <= 2,
    {
        let ax: i128 = if self.x < 0 { -(self.x as i128) } else { self.x as i128 };
        let ay: i128 = if self.y < 0 { -(self.y as i128) } else { self.y as i128 };
        let az: i128 = if self.z < 0 { -(self.z as i128) } else { self.z as i128 };
        if ax >= ay && ax >= az {
            0
        } else if ay >= az {
            1
        } else {
            2
        }
    }

    /// The two components that remain when component `axis` is removed.
    pub fn remove_row(&self, axis: usize) -> (p: Vec2)
        ensures
            p@ == self@.drop_axis(axis as int),
    {
        if axis == 0 {
            Vec2 { x: self.y, y: self.z }
        } else if axis == 1 {
            Vec2 { x: self.x, y: self.z }
        } else {
            Vec2 { x: self.x, y: self.y }
        }
    }
}

} // verus!
